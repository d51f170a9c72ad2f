use std::rc::Rc;
use word_vector_db::wordvector::Iter;
use word_vector_db::wordvector::Record;
use word_vector_db::wordvector::testing::TestIncCounter;
use word_vector_db::wordvector::word2vec::Word2Vec;

fn weights_f32(rec: &Record) -> Vec<f32> {
    rec.vec.iter().map(|w| w.token().parse::<f32>().unwrap_or(0.0)).collect()
}

fn word2vec_fixture() -> String {
    let mut data = String::from("11 300\n");
    data.push_str(
        "</s> 0.002001 0.002210 -0.001915 -0.001639 0.000683 0.000895 -0.000591 0.000099 -0.000843 -0.000563\n",
    );
    for i in 0..9 {
        data.push_str(&format!("v{} 0.1 0.2 0.3 0.4 0.5 0.6 0.7 0.8 0.9 1.0\n", i));
    }
    data.push_str(
        "Ð˜ -0.001489 0.001176 0.002261 -0.002077 -0.000209 0.001394 0.000704 0.000648 0.000774 0.000112\n",
    );
    data
}

fn test_word2vec_iter(iter: &mut Iter<TestIncCounter>) {
    match iter.next() {
        Some(record) => {
            assert_eq!(record.word, "</s>", "check first word");

            let vec = weights_f32(&record);
            let ln = vec.len();

            assert_eq!(
                &vec[..5],
                &[0.002001f32, 0.002210, -0.001915, -0.001639, 0.000683],
                "check first piece of word vector"
            );

            assert_eq!(
                &vec[ln - 5..],
                &[0.000895f32, -0.000591, 0.000099, -0.000843, -0.000563],
                "check last piece of word vector"
            );
        }
        None => assert!(false, "failed to read an any records"),
    }

    let mut last: Option<Record> = None;
    while let Some(record) = iter.next() {
        last = Some(record);
    }

    match last {
        Some(record) => {
            assert_eq!(record.word, "Ð˜", "check word");

            let vec = weights_f32(&record);
            let ln = vec.len();

            assert_eq!(
                &vec[..5],
                &[-0.001489f32, 0.001176, 0.002261, -0.002077, -0.000209],
                "check first piece of the last word vector"
            );

            assert_eq!(
                &vec[ln - 5..],
                &[0.001394, 0.000704, 0.000648, 0.000774, 0.000112],
                "check last piece of the last word vector"
            );
        }
        None => assert!(false, "failed to read the last record"),
    }
}

fn test_word2vec_iter_count(iter: &mut Iter<TestIncCounter>) {
    let mut count = 0;
    while let Some(_record) = iter.next() {
        count += 1;
    }

    assert_eq!(count, 11, "check word count");
}

#[test]
fn test_word2vec_buffer_iter() {
    let test_data = word2vec_fixture();

    let expected_data_len = test_data.as_bytes().len() as u64;
    let exist_counter = Rc::new(TestIncCounter::default());

    test_word2vec_iter(&mut Word2Vec::new(
        test_data.as_bytes().to_vec(),
        Some(exist_counter.clone()),
    )
    .into_iter());

    assert_eq!(exist_counter.value(), expected_data_len, "check counter");

    test_word2vec_iter_count(&mut Word2Vec::<TestIncCounter>::new(
        test_data.as_bytes().to_vec(),
        None,
    )
    .into_iter());
}

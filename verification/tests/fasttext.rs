use std::rc::Rc;
use word_vector_db::wordvector::Iter;
use word_vector_db::wordvector::Record;
use word_vector_db::wordvector::fasttext::FastText;
use word_vector_db::wordvector::testing::TestIncCounter;

fn weights_f32(rec: &Record) -> Vec<f32> {
    rec.vec.iter().map(|w| w.token().parse::<f32>().unwrap_or(0.0)).collect()
}

fn fasttext_fixture() -> String {
    let mut data = String::from("9 300\n");
    data.push_str(
        "</s> -0.015456 0.02135 -0.018898 -0.0018487 0.022132 -0.027139 0.011303 0.01991 -0.0096401 -0.012568\n",
    );
    for i in 0..7 {
        data.push_str(&format!("w{} 0.1 0.2 0.3 0.4 0.5 0.6 0.7 0.8 0.9 1.0\n", i));
    }
    data.push_str(
        "день 0.0051658 -0.0040491 0.0068376 -0.0034568 0.0092959 -0.0044257 -0.0017585 0.010604 0.0073663 -0.0047922\n",
    );
    data
}

fn test_fasttext_iter(iter: &mut Iter<TestIncCounter>) {
    match iter.next() {
        Some(record) => {
            assert_eq!(record.word, "</s>", "check first word");

            let vec = weights_f32(&record);
            let ln = vec.len();

            assert_eq!(
                &vec[..5],
                &[-0.015456f32, 0.02135, -0.018898, -0.0018487, 0.022132],
                "check first piece of word vector"
            );

            assert_eq!(
                &vec[ln - 5..],
                &[-0.027139f32, 0.011303, 0.01991, -0.0096401, -0.012568],
                "check last piece of word vector"
            );
        }
        None => assert!(false, "failed to read an any records"),
    }

    let mut last: Option<Record> = None;
    while let Some(record) = iter.next() {
        last = Some(record);
    }

    match last {
        Some(record) => {
            assert_eq!(record.word, "день", "check word");

            let vec = weights_f32(&record);
            let ln = vec.len();

            assert_eq!(
                &vec[..5],
                &[0.0051658f32, -0.0040491, 0.0068376, -0.0034568, 0.0092959],
                "check first piece of the last word vector"
            );

            assert_eq!(
                &vec[ln - 5..],
                &[-0.0044257f32, -0.0017585, 0.010604, 0.0073663, -0.0047922],
                "check last piece of the last word vector"
            );
        }
        None => assert!(false, "failed to read the last record"),
    }
}

fn test_fasttext_iter_count(iter: &mut Iter<TestIncCounter>) {
    let mut count = 0;
    while let Some(_record) = iter.next() {
        count += 1;
    }

    assert_eq!(count, 9, "check word count");
}

#[test]
fn test_fasttext_buffer_iter() {
    let test_data = fasttext_fixture();

    let expected_data_len = test_data.as_bytes().len() as u64;
    let exist_counter = Rc::new(TestIncCounter::default());

    test_fasttext_iter(&mut FastText::new(
        test_data.as_bytes().to_vec(),
        Some(exist_counter.clone()),
    )
    .into_iter());

    assert_eq!(exist_counter.value(), expected_data_len, "check counter");

    test_fasttext_iter_count(&mut FastText::<TestIncCounter>::new(
        test_data.as_bytes().to_vec(),
        None,
    )
    .into_iter());
}

use std::rc::Rc;
use word_vector_db::wordvector::Iter;
use word_vector_db::wordvector::Record;
use word_vector_db::wordvector::glove::Glove;
use word_vector_db::wordvector::testing::TestIncCounter;

fn weights_f32(rec: &Record) -> Vec<f32> {
    rec.vec.iter().map(|w| w.token().parse::<f32>().unwrap_or(0.0)).collect()
}

fn glove_fixture() -> String {
    let mut data = String::new();
    data.push_str(
        "the -0.634127 -1.770394 0.131677 -0.059609 1.111649 -1.152042 -0.683840 -0.097181 0.070575 1.122378\n",
    );
    for i in 0..8 {
        data.push_str(&format!("g{} 0.1 0.2 0.3 0.4 0.5 0.6 0.7 0.8 0.9 1.0\n", i));
    }
    data.push_str(
        "two 0.547172 -1.660098 -0.250286 1.269076 0.440363 -1.376995 -0.795934 0.957354 -0.111903 1.148171\n",
    );
    data
}

fn test_glove_iter(iter: &mut Iter<TestIncCounter>) {
    match iter.next() {
        Some(record) => {
            assert_eq!(record.word, "the", "check first word");

            let vec = weights_f32(&record);
            let ln = vec.len();

            assert_eq!(
                &vec[..5],
                &[-0.634127f32, -1.770394, 0.131677, -0.059609, 1.111649],
                "check first piece of word vector"
            );

            assert_eq!(
                &vec[ln - 5..],
                &[-1.152042f32, -0.683840, -0.097181, 0.070575, 1.122378],
                "check last piece of word vector"
            );
        }
        None => assert!(false, "failed to read an any records"),
    }

    let mut last: Option<Record> = None;
    while let Some(record) = iter.next() {
        last = Some(record);
    }

    match last {
        Some(record) => {
            assert_eq!(record.word, "two", "check word");

            let vec = weights_f32(&record);
            let ln = vec.len();

            assert_eq!(
                &vec[..5],
                &[0.547172f32, -1.660098, -0.250286, 1.269076, 0.440363],
                "check first piece of the last word vector"
            );

            assert_eq!(
                &vec[ln - 5..],
                &[-1.376995f32, -0.795934, 0.957354, -0.111903, 1.148171],
                "check last piece of the last word vector"
            );
        }
        None => assert!(false, "failed to read the last record"),
    }
}

fn test_glove_iter_count(iter: &mut Iter<TestIncCounter>) {
    let mut count = 0;
    while let Some(_record) = iter.next() {
        count += 1;
    }

    assert_eq!(count, 10, "check word count");
}

#[test]
fn test_glove_buffer_iter() {
    let test_data = glove_fixture();

    let expected_data_len = test_data.as_bytes().len() as u64;
    let exist_counter = Rc::new(TestIncCounter::default());

    test_glove_iter(&mut Glove::new(
        test_data.as_bytes().to_vec(),
        Some(exist_counter.clone()),
    )
    .into_iter());

    assert_eq!(exist_counter.value(), expected_data_len, "check counter");

    test_glove_iter_count(&mut Glove::<TestIncCounter>::new(
        test_data.as_bytes().to_vec(),
        None,
    )
    .into_iter());
}

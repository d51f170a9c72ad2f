use std::rc::Rc;
use word_vector_db::wordvector::Iter;
use word_vector_db::wordvector::Record;
use word_vector_db::wordvector::gensim::Gensim;
use word_vector_db::wordvector::testing::TestIncCounter;

fn weights_f32(rec: &Record) -> Vec<f32> {
    rec.vec.iter().map(|w| w.token().parse::<f32>().unwrap_or(0.0)).collect()
}

fn gensim_fixture() -> String {
    let mut data = String::new();
    data.push_str(
        "0\tакадемиков\t[0.55785882 -0.768264 -0.17276528 0.0782531 0.80086225 0.9875887 -0.19531961 -0.13729578 -0.18418171 0.53765053]",
    );
    for i in 0..3 {
        data.push_str(&format!(
            "\n{}\tслово{}\t[0.1 0.2 0.3 0.4 0.5 0.6 0.7 0.8 0.9 1.0]",
            i + 1,
            i
        ));
    }
    data.push_str(
        "\n4\tшаров\t[0.20803888 0.2093377 -0.32918587 -0.61297339 -0.15897623 -0.10956758 0.5555467 -0.9010241 -1.01419806 0.0154422]",
    );
    data
}

fn test_gensim_iter(iter: &mut Iter<TestIncCounter>) {
    match iter.next() {
        Some(record) => {
            assert_eq!(record.word, "академиков", "check first word");

            let vec = weights_f32(&record);
            let ln = vec.len();

            assert_eq!(
                &vec[..5],
                &[0.55785882f32, -0.768264, -0.17276528, 0.0782531, 0.80086225],
                "check first piece of word vector"
            );

            assert_eq!(
                &vec[ln - 5..],
                &[0.9875887f32, -0.19531961, -0.13729578, -0.18418171, 0.53765053],
                "check last piece of word vector"
            );
        }
        None => assert!(false, "failed to read an any records"),
    }

    let mut last: Option<Record> = None;
    while let Some(record) = iter.next() {
        last = Some(record);
    }

    match last {
        Some(record) => {
            assert_eq!(record.word, "шаров", "check word");

            let vec = weights_f32(&record);
            let ln = vec.len();

            assert_eq!(
                &vec[..5],
                &[0.20803888f32, 0.2093377, -0.32918587, -0.61297339, -0.15897623],
                "check first piece of the last word vector"
            );

            assert_eq!(
                &vec[ln - 5..],
                &[-0.10956758f32, 0.5555467, -0.9010241, -1.01419806, 0.0154422],
                "check last piece of the last word vector"
            );
        }
        None => assert!(false, "failed to read the last record"),
    }
}

fn test_gensim_iter_count(iter: &mut Iter<TestIncCounter>) {
    let mut count = 0;
    while let Some(_record) = iter.next() {
        count += 1;
    }

    assert_eq!(count, 5, "check word count");
}

#[test]
fn test_gensim_buffer_iter() {
    let test_data = gensim_fixture();

    let expected_data_len = test_data.as_bytes().len() as u64;
    let exist_counter = Rc::new(TestIncCounter::default());

    test_gensim_iter(&mut Gensim::new(
        test_data.as_bytes().to_vec(),
        Some(exist_counter.clone()),
    )
    .into_iter());

    assert_eq!(exist_counter.value(), expected_data_len, "check counter");

    test_gensim_iter_count(&mut Gensim::<TestIncCounter>::new(
        test_data.as_bytes().to_vec(),
        None,
    )
    .into_iter());
}

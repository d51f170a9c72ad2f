use word_vector_db::wordvector::Record;
use word_vector_db::wordvector::Weight;

#[test]
fn test_record() {
    let rec = Record::new(
        "hello",
        vec![Weight::new("0.12"), Weight::new("3.14"), Weight::new("5.16")],
    );

    let expected_word = "hello".to_string();
    let expected_vec = vec![0.12f32, 3.14, 5.16];

    let vec: Vec<f32> = rec.vec.iter().map(|w| w.token().parse::<f32>().unwrap_or(0.0)).collect();

    assert_eq!(rec.word, expected_word, "check word init");
    assert_eq!(vec, expected_vec, "check vec init");
}

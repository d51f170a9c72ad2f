use rand::Rng;
use std::collections::BTreeMap;
use word_vector_db::db::models::kind::Kind;
use word_vector_db::db::models::kind::create_kind;
use word_vector_db::db::models::kind::get_kind;
use word_vector_db::db::models::kind::kinds_list;
use word_vector_db::db::models::vector::Vector;
use word_vector_db::db::models::vector::add_vectors;
use word_vector_db::db::models::vector::word_2_vector;
use word_vector_db::db::models::word::Word;
use word_vector_db::db::models::word::create_word;
use word_vector_db::db::models::word::get_word;
use word_vector_db::db::models::word::words_list;
use word_vector_db::db::store::Store;
use word_vector_db::wordvector::Weight;

fn prepare_connection() -> Result<Store, String> {
    Ok(Store::new())
}

fn random_f(probability_zero: f32, min: f32, max: f32) -> Box<dyn Fn() -> f32> {
    Box::new(move || {
        let mut rng = rand::thread_rng();

        if rng.gen::<f32>() < probability_zero {
            0.0f32
        } else {
            rng.gen_range(min..max)
        }
    })
}

fn random_vector(n: usize) -> Vec<f32> {
    let rnd = random_f(0.3f32, -100.0f32, 100.0f32);

    vec![0f32; n].into_iter().map(|_| rnd()).collect()
}

fn to_weights(points: &[f32]) -> Vec<Weight> {
    points.iter().map(|p| Weight::new(&format!("{}", p))).collect()
}

fn to_f32s(weights: &[Weight]) -> Vec<f32> {
    weights.iter().map(|w| w.token().parse::<f32>().unwrap_or(0.0)).collect()
}

#[test]
fn test_kinds() {
    let mut connection = match prepare_connection() {
        Ok(connection) => connection,
        Err(err) => {
            assert!(false, "failed to prepare connection with {:?}", err);
            return;
        }
    };

    let kinds = vec!["намело", "сугробы", "крыльца"];

    for &kind in kinds.iter() {
        match create_kind(&mut connection, kind) {
            Some(k) => assert_eq!(k.name, kind, "check creation"),
            None => assert!(false, "failed to create kind - '{}'", kind),
        }
    }

    assert!(
        kinds.iter().all(|&kind| {
            match get_kind(&connection, kind) {
                Some(rec) => rec.id > 0,
                None => false,
            }
        }),
        "check exists and id"
    );

    match kinds_list(&connection) {
        Some(list) => assert_eq!(
            &list.iter().map(|rec| rec.name.to_string()).collect::<Vec<_>>(),
            &kinds,
            "check list content"
        ),
        None => assert!(false, "failed to get stored kind values"),
    }
}

#[test]
fn test_words() {
    let mut connection = match prepare_connection() {
        Ok(connection) => connection,
        Err(err) => {
            assert!(false, "failed to prepare connection with {:?}", err);
            return;
        }
    };

    let words = vec!["намело", "сугробы", "крыльца"];

    for &word in words.iter() {
        match create_word(&mut connection, word) {
            Some(w) => assert_eq!(w.word, word, "check creation"),
            None => assert!(false, "failed to create word - '{}'", word),
        }
    }

    assert!(
        words.iter().all(|&word| {
            match get_word(&connection, word) {
                Some(rec) => rec.id > 0,
                None => false,
            }
        }),
        "check exists and id"
    );

    match words_list(&connection) {
        Some(list) => assert_eq!(
            &list.iter().map(|rec| rec.word.to_string()).collect::<Vec<_>>(),
            &words,
            "check list content"
        ),
        None => assert!(false, "failed to get stored words values"),
    }
}

#[test]
fn test_vectors() {
    let mut connection = match prepare_connection() {
        Ok(connection) => connection,
        Err(err) => {
            assert!(false, "failed to prepare connection with {:?}", err);
            return;
        }
    };

    let kinds = vec!["glove", "fasttext", "word2vec"];
    let words = vec!["намело", "сугробы", "у", "нашего", "крыльца"];

    let stored_kinds = kinds
        .iter()
        .filter_map(|&kind| create_kind(&mut connection, kind))
        .collect::<Vec<Kind>>();

    let stored_words = words
        .iter()
        .filter_map(|&word| create_word(&mut connection, word))
        .collect::<Vec<Word>>();

    let mut data: BTreeMap<(String, String), Vec<f32>> = BTreeMap::new();
    let vector_dim: usize = 30;

    for kind in stored_kinds.iter() {
        for word in stored_words.iter() {
            let key = (kind.name.to_string(), word.word.to_string());

            let vec = random_vector(vector_dim);

            if add_vectors(&mut connection, &Vector::from_vec(word, kind, &to_weights(&vec))) == 0
            {
                assert!(false, "failed to add vectors for {:?} under {:?}", word, kind);
            } else {
                data.insert(key, vec);
            }
        }
    }

    for kind in stored_kinds.iter() {
        for word in stored_words.iter() {
            let exist_vec = match word_2_vector(&connection, word, kind) {
                Some(vec) => to_f32s(&vec),
                None => {
                    assert!(false, "failed to get a vector for {:?} under {:?}", word, kind);
                    continue;
                }
            };

            let key = (kind.name.to_string(), word.word.to_string());

            if let Some(expected_vec) = data.get(&key) {
                assert_eq!(&exist_vec, expected_vec, "check vec");
            } else {
                assert!(false, "data doesn't found in a test cache");
            }
        }
    }
}

use std::rc::Rc;
use std::sync::mpsc::channel;
use word_vector_db::converter::Converter;
use word_vector_db::db::models::kind::create_kind;
use word_vector_db::db::models::kind::kinds_list;
use word_vector_db::db::models::vector::Vector;
use word_vector_db::db::models::vector::add_vectors;
use word_vector_db::db::models::vector::word_2_vector;
use word_vector_db::db::models::word::create_word;
use word_vector_db::db::models::word::words_list;
use word_vector_db::db::store::Store;
use word_vector_db::io::IteratorWithSignal;
use word_vector_db::progressbar::Progress;
use word_vector_db::progressbar::ProgressAction;
use word_vector_db::progressbar::ProgressSignal;
use word_vector_db::progressbar::Stage;
use word_vector_db::wordvector::VectorFile;
use word_vector_db::wordvector::Weight;
use word_vector_db::wordvector::dataiterator::DataIterator;
use word_vector_db::wordvector::parse_record;
use word_vector_db::wordvector::testing::TestIncCounter;

fn to_f32s(weights: &[Weight]) -> Vec<f32> {
    weights.iter().map(|w| w.token().parse::<f32>().unwrap_or(0.0)).collect()
}

#[test]
fn test_malformed_weight_token_is_zero() {
    // a malformed numeric token decodes to 0.0 without an error and without
    // truncating the rest of the line
    let rec = parse_record("hello abc 1.5".as_bytes());

    assert_eq!(rec.word, "hello");
    assert_eq!(rec.vec.len(), 2, "the line is not truncated after the bad token");
    assert_eq!(to_f32s(&rec.vec), vec![0.0f32, 1.5]);
    assert_eq!(rec.vec[0].token(), "0");
    assert_eq!(rec.vec[1].token(), "1.5");
}

#[test]
fn test_weight_token_grammar() {
    // kept: everything a 32-bit float parse accepts
    for tok in ["1", "-1", "+3", "5.", ".5", "2.5", "12e6", "8.9e-2", "1E+4", "inf", "-inf",
        "Infinity", "NaN", "nan"] {
        assert_eq!(Weight::new(tok).token(), tok, "token '{}' should be kept", tok);
    }
    // replaced by zero: everything such a parse rejects
    for tok in ["", "abc", ".", "--1", "1.2.3", "1e", "e5", "0x10", "1,5", "infx", "5 "] {
        assert_eq!(Weight::new(tok).token(), "0", "token '{}' should become zero", tok);
    }
    assert_eq!(Weight::zero().token(), "0");
}

#[test]
fn test_read_line_scanning() {
    let mut scanner = IteratorWithSignal::new("ab|cd||e".as_bytes().to_vec(), b'|');

    assert_eq!(scanner.read_line(), Some((3, "ab".to_string())));
    assert_eq!(scanner.read_line(), Some((3, "cd".to_string())));
    assert_eq!(scanner.read_line(), Some((1, "".to_string())));
    // the final piece has no trailing delimiter: consumed as it stands
    assert_eq!(scanner.next(), Some((1, "e".to_string())));
    assert_eq!(scanner.next(), None);
}

#[test]
fn test_lossy_decoding_replaces_invalid_bytes() {
    let mut scanner = IteratorWithSignal::new(vec![0xffu8, 0x61, 0x62], b'\n');

    match scanner.read_line() {
        Some((delta, line)) => {
            assert_eq!(delta, 3, "every raw byte is accounted for");
            assert_eq!(line, "\u{fffd}ab", "invalid bytes are replaced, never rejected");
        }
        None => assert!(false, "a malformed byte must not end the sequence"),
    }
}

#[test]
fn test_get_or_create_idempotent() {
    let mut store = Store::new();

    let first = create_kind(&mut store, "fasttext").expect("first create");
    let second = create_kind(&mut store, "fasttext").expect("second create");

    assert_eq!(first.id, second.id, "same identity both times");
    assert_eq!(kinds_list(&store).expect("list").len(), 1, "no second row");

    let w1 = create_word(&mut store, "дом").expect("first word");
    let w2 = create_word(&mut store, "дом").expect("second word");

    assert_eq!(w1.id, w2.id, "same identity both times");
    assert_eq!(words_list(&store).expect("list").len(), 1, "no second row");
}

#[test]
fn test_word_2_vector_orders_by_position() {
    let mut store = Store::new();
    let word = create_word(&mut store, "точка").expect("word");
    let kind = create_kind(&mut store, "glove").expect("kind");

    // insert the rows of one embedding out of position order
    let rows = vec![
        Vector::new(&word, &kind, 2, Weight::new("0.3")),
        Vector::new(&word, &kind, 0, Weight::new("0.1")),
        Vector::new(&word, &kind, 1, Weight::new("0.2")),
    ];
    assert_eq!(add_vectors(&mut store, &rows), 3);

    let back = word_2_vector(&store, &word, &kind).expect("read back");
    assert_eq!(to_f32s(&back), vec![0.1f32, 0.2, 0.3], "ordered by position");
}

#[test]
fn test_add_vectors_rejects_key_collision() {
    let mut store = Store::new();
    let word = create_word(&mut store, "ключ").expect("word");
    let kind = create_kind(&mut store, "glove").expect("kind");

    let rows = Vector::from_vec(&word, &kind, &[Weight::new("1.0"), Weight::new("2.0")]);
    assert_eq!(add_vectors(&mut store, &rows), 2);

    // the same keys again: the whole batch fails, nothing is inserted
    let again = Vector::from_vec(&word, &kind, &[Weight::new("7.0"), Weight::new("8.0")]);
    assert_eq!(add_vectors(&mut store, &again), 0);

    let back = word_2_vector(&store, &word, &kind).expect("read back");
    assert_eq!(to_f32s(&back), vec![1.0f32, 2.0], "the stored embedding is unchanged");
}

fn fasttext_bytes() -> Vec<u8> {
    let mut data = String::from("9 300\n");
    for i in 0..9 {
        data.push_str(&format!("word{} 0.5 1.5 2.5\n", i));
    }
    data.into_bytes()
}

#[test]
fn test_end_to_end_fasttext_ingest() {
    // ingest a FastText fixture with a header line "9 300" and 9 data lines
    let mut converter = Converter::new(1000);

    let sources = vec![(VectorFile::FastText("embeddings.vec".to_string()), fasttext_bytes())];
    let mut iterators = DataIterator::<TestIncCounter>::make_vec(None, sources);
    assert_eq!(iterators.len(), 1);
    assert_eq!(iterators[0].kind(), "fasttext");
    assert_eq!(iterators[0].max(), fasttext_bytes().len() as u64);

    converter.convert(&mut iterators[0]).expect("convert");

    let kinds = kinds_list(converter.store()).expect("kinds");
    assert_eq!(kinds.len(), 1, "exactly one kind row");
    assert_eq!(kinds[0].name, "fasttext");

    let words = words_list(converter.store()).expect("words");
    assert_eq!(words.len(), 9, "exactly 9 words created");

    for word in words.iter() {
        let vec = word_2_vector(converter.store(), word, &kinds[0]).expect("embedding");
        assert_eq!(to_f32s(&vec), vec![0.5f32, 1.5, 2.5], "one set of rows per word");
    }

    // re-running ingestion against the same store duplicates nothing
    let sources = vec![(VectorFile::FastText("embeddings.vec".to_string()), fasttext_bytes())];
    let mut iterators = DataIterator::<TestIncCounter>::make_vec(None, sources);
    converter.convert(&mut iterators[0]).expect("convert again");

    assert_eq!(kinds_list(converter.store()).expect("kinds").len(), 1, "no duplicate kind row");
    assert_eq!(words_list(converter.store()).expect("words").len(), 9, "no duplicate words");
}

#[test]
fn test_small_batch_size_changes_nothing() {
    // chunking is configuration, not semantics: batch size 2 loads the same
    // store as one big chunk
    let mut small = Converter::new(2);
    let mut big = Converter::new(1000);

    for converter in [&mut small, &mut big] {
        let sources = vec![(VectorFile::FastText("embeddings.vec".to_string()), fasttext_bytes())];
        let mut iterators = DataIterator::<TestIncCounter>::make_vec(None, sources);
        converter.convert(&mut iterators[0]).expect("convert");
    }

    let small_words = words_list(small.store()).expect("words");
    let big_words = words_list(big.store()).expect("words");
    assert_eq!(small_words, big_words, "same words in the same order");
}

#[test]
fn test_make_vec_drops_unknown_format() {
    let sources = vec![
        (VectorFile::Unknown, vec![1u8, 2, 3]),
        (VectorFile::Glove("g.txt".to_string()), "a 1.0\n".as_bytes().to_vec()),
    ];
    let iterators = DataIterator::<TestIncCounter>::make_vec(None, sources);

    assert_eq!(iterators.len(), 1, "the unknown source contributes nothing");
    assert_eq!(iterators[0].kind(), "glove");
}

#[test]
fn test_progress_consumer_state_machine() {
    let mut progress = Progress::new();

    assert_eq!(progress.apply(Stage::Init(3)), ProgressAction::Prepare);
    assert_eq!(
        progress.apply(Stage::Start("fasttext".to_string(), 100)),
        ProgressAction::NewBar {
            index: 1,
            stages: 3,
            message: "fasttext".to_string(),
            max: 100,
        }
    );
    assert_eq!(progress.apply(Stage::Inc(42)), ProgressAction::Advance { delta: 42 });
    assert_eq!(
        progress.apply(Stage::Finish("fasttext".to_string())),
        ProgressAction::FinishBar { message: "fasttext".to_string() }
    );
    assert_eq!(
        progress.apply(Stage::Start("glove".to_string(), 7)),
        ProgressAction::NewBar {
            index: 2,
            stages: 3,
            message: "glove".to_string(),
            max: 7,
        }
    );
    assert_eq!(progress.apply(Stage::Stop), ProgressAction::Halt);
}

#[test]
fn test_progress_signal_delivers_stages() {
    let (tx, rx) = channel();
    let signal = ProgressSignal::new(tx);

    signal.init(2).expect("init");
    signal.start("stage", 10).expect("start");
    signal.inc(4).expect("inc");
    signal.finish("stage").expect("finish");
    signal.stop().expect("stop");

    match rx.try_recv().expect("one event") {
        Stage::Init(n) => assert_eq!(n, 2),
        _ => assert!(false, "expected the stage count first"),
    }
    match rx.try_recv().expect("second event") {
        Stage::Start(message, max) => {
            assert_eq!(message, "stage");
            assert_eq!(max, 10);
        }
        _ => assert!(false, "expected the stage begin"),
    }
    match rx.try_recv().expect("third event") {
        Stage::Inc(delta) => assert_eq!(delta, 4),
        _ => assert!(false, "expected the advance"),
    }
    match rx.try_recv().expect("fourth event") {
        Stage::Finish(message) => assert_eq!(message, "stage"),
        _ => assert!(false, "expected the stage end"),
    }
    match rx.try_recv().expect("fifth event") {
        Stage::Stop => {}
        _ => assert!(false, "expected the halt"),
    }
}

#[test]
fn test_progress_signal_send_failure_is_an_error_value() {
    let (tx, rx) = channel::<Stage>();
    drop(rx);
    let signal = ProgressSignal::new(tx);

    // with the receiver gone the send fails as a value, it never panics
    assert!(signal.inc(1).is_err());
}

#[test]
fn test_decoding_without_sink_is_unchanged() {
    // the record stream is byte-for-byte the same with and without a sink
    let data = fasttext_bytes();

    let counter = Rc::new(TestIncCounter::default());
    let mut with_sink = word_vector_db::wordvector::fasttext::FastText::new(
        data.clone(),
        Some(counter.clone()),
    )
    .into_iter();
    let mut without_sink =
        word_vector_db::wordvector::fasttext::FastText::<TestIncCounter>::new(data.clone(), None)
            .into_iter();

    loop {
        let a = with_sink.next();
        let b = without_sink.next();
        assert_eq!(a, b, "progress observation never changes the data path");
        if a.is_none() {
            break;
        }
    }
    assert_eq!(counter.value(), data.len() as u64, "every byte is reported");
}

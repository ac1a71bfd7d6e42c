use hugging_datasets::DataError;
use hugging_datasets::DataLoader;
use hugging_datasets::DataSet;
use hugging_datasets::FileFormat;
use hugging_datasets::Ratio;
use hugging_datasets::SecurityRecord;
use hugging_datasets::Table;
use hugging_datasets::Value;
use hugging_datasets::format_of_name;
use hugging_datasets::train_test_split;

fn int_table(name: &str, vals: &[i64]) -> Table {
    let mut t = Table::new();
    let cells: Vec<Value> = vals.iter().map(|v| Value::Int(*v)).collect();
    t.push_column(name.to_string(), cells).unwrap();
    t
}

fn push_ints(t: &mut Table, name: &str, vals: &[i64]) {
    let cells: Vec<Value> = vals.iter().map(|v| Value::Int(*v)).collect();
    t.push_column(name.to_string(), cells).unwrap();
}

fn ints_of(t: &Table, name: &str) -> Vec<i64> {
    t.column(name)
        .unwrap()
        .iter()
        .map(|v| match v {
            Value::Int(i) => *i,
            _ => panic!("expected an integer cell"),
        })
        .collect()
}

#[test]
fn test_dataloader() {
    let mut table = Table::new();
    let cells: Vec<Value> = [1.0f64, 2.0, 3.0, 4.0, 5.0]
        .iter()
        .map(|v| Value::Float(v.to_bits()))
        .collect();
    table.push_column("data".to_string(), cells).unwrap();
    let dataset = DataSet::new(table);
    let mut dataloader = DataLoader::new(dataset, 2, true).unwrap();

    let mut total_batches = 0;
    let mut seen_items = std::collections::HashSet::new();

    while let Some(batch) = dataloader.next_batch() {
        total_batches += 1;
        for item in batch.column("data").unwrap() {
            match item {
                Value::Float(bits) => {
                    seen_items.insert(f64::from_bits(*bits) as i32);
                }
                _ => panic!("expected a float cell"),
            }
        }
    }

    assert_eq!(total_batches, 3);
    assert_eq!(seen_items.len(), 5);
}

#[test]
fn test_identity_slice_round_trips() {
    let t = int_table("c", &[7, 8, 9]);
    let s = t.slice(0, t.height()).unwrap();
    assert_eq!(s.height(), t.height());
    assert_eq!(ints_of(&s, "c"), vec![7, 8, 9]);
}

#[test]
fn test_slice_out_of_range() {
    let t = int_table("c", &[7, 8, 9]);
    assert_eq!(t.slice(2, 2).unwrap_err(), DataError::OutOfRange);
    assert_eq!(t.slice(0, 4).unwrap_err(), DataError::OutOfRange);
    let s = t.slice(1, 2).unwrap();
    assert_eq!(ints_of(&s, "c"), vec![8, 9]);
}

#[test]
fn test_column_and_drop_not_found() {
    let t = int_table("c", &[1]);
    assert_eq!(t.column("missing").unwrap_err(), DataError::NotFound);
    assert_eq!(t.drop("missing").unwrap_err(), DataError::NotFound);
}

#[test]
fn test_push_column_rejects_duplicates_and_ragged() {
    let mut t = int_table("c", &[1, 2]);
    let dup: Vec<Value> = vec![Value::Int(3), Value::Int(4)];
    assert_eq!(
        t.push_column("c".to_string(), dup).unwrap_err(),
        DataError::InvalidArgument
    );
    let ragged: Vec<Value> = vec![Value::Int(3)];
    assert_eq!(
        t.push_column("d".to_string(), ragged).unwrap_err(),
        DataError::InvalidArgument
    );
    assert_eq!(t.width(), 1);
}

#[test]
fn test_shuffle_seeded_deterministic() {
    let mut t = Table::new();
    push_ints(&mut t, "c", &[10, 20, 30, 40, 50, 60]);
    let ds = DataSet::new(t);
    let a = ds.shuffle_seeded(42);
    let b = ds.shuffle_seeded(42);
    assert_eq!(ints_of(&a.data, "c"), ints_of(&b.data, "c"));
    // A different seed is free to give a different order; the source is untouched.
    assert_eq!(ints_of(&ds.data, "c"), vec![10, 20, 30, 40, 50, 60]);
}

#[test]
fn test_shuffle_keeps_rows() {
    let mut t = Table::new();
    push_ints(&mut t, "c", &[0, 1, 2, 3, 4, 5, 6, 7, 8, 9]);
    let ds = DataSet::new(t);
    let shuffled = ds.shuffle();
    assert_eq!(shuffled.data.height(), 10);
    let mut got = ints_of(&shuffled.data, "c");
    got.sort();
    assert_eq!(got, (0..10).collect::<Vec<i64>>());
}

#[test]
fn test_split_feature_target() {
    let mut t = Table::new();
    push_ints(&mut t, "a", &[1, 2, 3]);
    push_ints(&mut t, "target", &[7, 8, 9]);
    let ds = DataSet::new(t);
    let (x, y) = ds.split_feature_target("target").unwrap();
    assert_eq!(x.width(), 1);
    assert_eq!(x.height(), 3);
    assert_eq!(ints_of(&x, "a"), vec![1, 2, 3]);
    let y_ints: Vec<i64> = y
        .iter()
        .map(|v| match v {
            Value::Int(i) => *i,
            _ => panic!("expected an integer cell"),
        })
        .collect();
    assert_eq!(y_ints, vec![7, 8, 9]);
    assert_eq!(
        ds.split_feature_target("absent").unwrap_err(),
        DataError::NotFound
    );
}

#[test]
fn test_train_test_split_sizes() {
    let x = int_table("f", &[0, 1, 2, 3, 4, 5, 6, 7, 8, 9]);
    let y: Vec<Value> = (0..10).map(Value::Int).collect();
    let (x_train, x_test, y_train, y_test) =
        train_test_split(&x, &y, Ratio { num: 2, den: 10 }).unwrap();
    assert_eq!(x_train.height(), 8);
    assert_eq!(x_test.height(), 2);
    assert_eq!(y_train.len(), 8);
    assert_eq!(y_test.len(), 2);
    // Order-preserving: the first eight rows train, the last two test.
    assert_eq!(ints_of(&x_train, "f"), (0..8).collect::<Vec<i64>>());
    assert_eq!(ints_of(&x_test, "f"), vec![8, 9]);
}

#[test]
fn test_train_test_split_rounds_half_up() {
    // 7 rows at one half: 3.5 rounds up to 4 test rows.
    let x = int_table("f", &[0, 1, 2, 3, 4, 5, 6]);
    let y: Vec<Value> = (0..7).map(Value::Int).collect();
    let (x_train, x_test, _, _) = train_test_split(&x, &y, Ratio { num: 1, den: 2 }).unwrap();
    assert_eq!(x_train.height(), 3);
    assert_eq!(x_test.height(), 4);
}

#[test]
fn test_train_test_split_rejects_bad_arguments() {
    let x = int_table("f", &[0, 1, 2]);
    let y: Vec<Value> = (0..3).map(Value::Int).collect();
    assert_eq!(
        train_test_split(&x, &y, Ratio { num: 3, den: 2 }).unwrap_err(),
        DataError::InvalidArgument
    );
    assert_eq!(
        train_test_split(&x, &y, Ratio { num: 1, den: 0 }).unwrap_err(),
        DataError::InvalidArgument
    );
    let short: Vec<Value> = (0..2).map(Value::Int).collect();
    assert_eq!(
        train_test_split(&x, &short, Ratio { num: 1, den: 2 }).unwrap_err(),
        DataError::InvalidArgument
    );
}

#[test]
fn test_batch_pass_without_shuffle() {
    let mut t = Table::new();
    push_ints(&mut t, "c", &[0, 1, 2, 3, 4]);
    let ds = DataSet::new(t);
    let mut loader = DataLoader::new(ds, 2, false).unwrap();
    let b1 = loader.next_batch().unwrap();
    assert_eq!(ints_of(&b1, "c"), vec![0, 1]);
    let b2 = loader.next_batch().unwrap();
    assert_eq!(ints_of(&b2, "c"), vec![2, 3]);
    let b3 = loader.next_batch().unwrap();
    assert_eq!(ints_of(&b3, "c"), vec![4]);
    assert!(loader.next_batch().is_none());
    assert!(loader.next_batch().is_none());
}

#[test]
fn test_loader_rejects_zero_batch_size() {
    let ds = DataSet::new(int_table("c", &[1]));
    assert!(matches!(
        DataLoader::new(ds, 0, false),
        Err(DataError::InvalidArgument)
    ));
}

#[test]
fn test_restart_begins_new_session() {
    let mut t = Table::new();
    push_ints(&mut t, "c", &(0..64).collect::<Vec<i64>>());
    let ds = DataSet::new(t);
    let mut loader = DataLoader::new(ds, 16, true).unwrap();
    while loader.next_batch().is_some() {}
    assert!(loader.next_batch().is_none());
    let old_session = loader.session_id;
    loader.restart();
    assert_ne!(loader.session_id, old_session);
    // Back in the ready state: a full second pass hands out every row again.
    let mut seen = Vec::new();
    while let Some(batch) = loader.next_batch() {
        seen.extend(ints_of(&batch, "c"));
    }
    seen.sort();
    assert_eq!(seen, (0..64).collect::<Vec<i64>>());
}

#[test]
fn test_shuffled_drop_keeps_rows_and_removes_one_column() {
    let mut t = Table::new();
    push_ints(&mut t, "a", &(0..10).collect::<Vec<i64>>());
    push_ints(&mut t, "target", &(10..20).collect::<Vec<i64>>());
    let ds = DataSet::new(t);
    let dropped = ds.shuffle().data.drop("target").unwrap();
    assert_eq!(dropped.height(), 10);
    assert_eq!(dropped.width(), 1);
    assert!(matches!(dropped.column("target"), Err(DataError::NotFound)));
}

#[test]
fn test_dataset_identity_metadata() {
    let ds = DataSet::new(int_table("c", &[1]));
    // The timestamp shape: dd-mm-yy-HH.
    let chars: Vec<char> = ds.timestamp.chars().collect();
    assert_eq!(chars.len(), 11);
    for (i, c) in chars.iter().enumerate() {
        if i == 2 || i == 5 || i == 8 {
            assert_eq!(*c, '-');
        } else {
            assert!(c.is_ascii_digit());
        }
    }
    // The identifier carries the version-four bit pattern.
    assert_eq!((ds.uuid >> 76) & 0xf, 4);
    assert_eq!((ds.uuid >> 62) & 3, 2);
    let other = DataSet::new(int_table("c", &[1]));
    assert_ne!(ds.uuid, other.uuid);
}

#[test]
fn test_records_to_table_schema() {
    let records = vec![
        SecurityRecord {
            uuid: "00000000-0000-4000-8000-000000000001".to_string(),
            timestamp: "2024-01-01T00:00:00Z".to_string(),
            source_ip: "10.0.0.1".to_string(),
            destination_ip: "10.0.0.2".to_string(),
            action: "allow".to_string(),
            protocol: "tcp".to_string(),
        },
        SecurityRecord {
            uuid: "00000000-0000-4000-8000-000000000002".to_string(),
            timestamp: "2024-01-01T00:00:01Z".to_string(),
            source_ip: "10.0.0.3".to_string(),
            destination_ip: "10.0.0.4".to_string(),
            action: "deny".to_string(),
            protocol: "udp".to_string(),
        },
    ];
    let t = hugging_datasets::records::records_to_table(&records);
    assert_eq!(t.width(), 6);
    assert_eq!(t.height(), 2);
    let actions: Vec<String> = t
        .column("action")
        .unwrap()
        .iter()
        .map(|v| match v {
            Value::Str(s) => s.clone(),
            _ => panic!("expected a text cell"),
        })
        .collect();
    assert_eq!(actions, vec!["allow".to_string(), "deny".to_string()]);
    assert!(t.column("protocol").is_ok());
    assert!(t.column("id").is_ok());
}

#[test]
fn test_format_of_name() {
    assert_eq!(format_of_name("csv"), Some(FileFormat::Csv));
    assert_eq!(format_of_name("json"), Some(FileFormat::Json));
    assert_eq!(format_of_name("parquet"), Some(FileFormat::Parquet));
    assert_eq!(format_of_name("xml"), None);
    assert_eq!(format_of_name(""), None);
}

fn str_table(cols: &[(&str, &[&str])]) -> Table {
    let mut t = Table::new();
    for (name, vals) in cols {
        let cells: Vec<Value> = vals.iter().map(|v| Value::Str(v.to_string())).collect();
        t.push_column(name.to_string(), cells).unwrap();
    }
    t
}

#[test]
fn test_csv_encode() {
    let t = str_table(&[("a", &["1", "3"]), ("b", &["2", "4"])]);
    let text = hugging_datasets::encode_csv(&t).unwrap();
    assert_eq!(text, "a,b\n1,2\n3,4");
}

#[test]
fn test_csv_decode() {
    let t = hugging_datasets::decode_csv("x,y\nhello,world\n").unwrap();
    assert_eq!(t.width(), 2);
    assert_eq!(t.height(), 1);
    let cell = &t.column("y").unwrap()[0];
    assert!(matches!(cell, Value::Str(s) if s == "world"));
}

#[test]
fn test_csv_round_trip() {
    let t = str_table(&[("name", &["alice", "bob"]), ("role", &["admin", "user"])]);
    let text = hugging_datasets::encode_csv(&t).unwrap();
    let back = hugging_datasets::decode_csv(&text).unwrap();
    assert_eq!(back.width(), t.width());
    assert_eq!(back.height(), t.height());
    for name in ["name", "role"] {
        let orig = t.column(name).unwrap();
        let got = back.column(name).unwrap();
        for (a, b) in orig.iter().zip(got.iter()) {
            match (a, b) {
                (Value::Str(x), Value::Str(y)) => assert_eq!(x, y),
                _ => panic!("expected text cells"),
            }
        }
    }
}

#[test]
fn test_csv_decode_errors() {
    // A row wider than the header.
    assert_eq!(
        hugging_datasets::decode_csv("a,b\n1,2,3").unwrap_err(),
        DataError::DecodeError
    );
    // Two columns with the same name.
    assert_eq!(
        hugging_datasets::decode_csv("a,a\n1,2").unwrap_err(),
        DataError::DecodeError
    );
}

#[test]
fn test_csv_encode_errors() {
    // A non-text cell.
    let t = int_table("n", &[1]);
    assert_eq!(
        hugging_datasets::encode_csv(&t).unwrap_err(),
        DataError::EncodeError
    );
    // A cell holding the separator.
    let t = str_table(&[("a", &["x,y"])]);
    assert_eq!(
        hugging_datasets::encode_csv(&t).unwrap_err(),
        DataError::EncodeError
    );
}

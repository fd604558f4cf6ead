use imaged::{Color, Entry, Error, Image, ImagedStatus, Meta, Type, DB};

#[test]
fn it_works() {
    let mut db = DB::open("./testing", Some(Vec::new())).unwrap();
    let image = Image::new(Meta::new(800, 600, Color::RGB, Type::F(32))).unwrap();
    let handle = db.set("testing", &image).unwrap();
    db.close(handle).unwrap();
    {
        let mut iter = db.iter().unwrap();
        let (k, i) = iter.next().unwrap();
        assert!(k == "testing");
        assert!(i.meta().width() == 800);
        assert!(i.meta().height() == 600);
    }

    db.remove("testing").unwrap();

    {
        let mut iter = db.iter().unwrap();
        assert!(iter.next().is_none());
    }

    let removed = db.destroy().unwrap();
    assert!(removed.is_empty());
}

#[test]
fn second_editable_handle_is_locked_out() {
    let mut db = DB::open("root", Some(Vec::new())).unwrap();
    let image = Image::new(Meta::new(4, 4, Color::Gray, Type::U(8))).unwrap();
    let first = db.set("a", &image).unwrap();
    assert!(db.is_locked("a"));
    let second = db.get("a", true);
    assert!(matches!(second, Err(Error::Sys(ImagedStatus::IMAGED_ERR_LOCKED))));
    db.close(first).unwrap();
    assert!(!db.is_locked("a"));
    let second = db.get("a", true).unwrap();
    db.close(second).unwrap();
}

fn gray(bytes: &[u8]) -> Image {
    Image::new_with_data(Meta::new(bytes.len(), 1, Color::Gray, Type::U(8)), bytes.to_vec()).unwrap()
}

fn put(db: &mut DB, key: &str, bytes: &[u8]) {
    let handle = db.set(key, &gray(bytes)).unwrap();
    db.close(handle).unwrap();
}

fn keys(db: &DB) -> Vec<String> {
    let mut iter = db.iter_keys().unwrap();
    let mut keys = Vec::new();
    while let Some(key) = iter.next() {
        keys.push(key.to_string());
    }
    keys
}

#[test]
fn open_checks_the_path_and_the_listing() {
    assert!(matches!(DB::open("a\0b", Some(Vec::new())), Err(Error::InvalidPath)));
    assert!(matches!(DB::open("a\0b", None), Err(Error::InvalidPath)));
    assert!(matches!(DB::open("./testing", None), Err(Error::CannotOpenDB)));
    let twice = vec![
        Entry { name: "a".to_string(), content: None },
        Entry { name: "a".to_string(), content: Some(Vec::new()) },
    ];
    assert!(matches!(DB::open("./testing", Some(twice)), Err(Error::CannotOpenDB)));
    let db = DB::open("./testing", Some(Vec::new())).unwrap();
    assert_eq!(db.root(), "./testing");
    assert_eq!(db.nodes(), 0);
}

#[test]
fn open_finds_the_entries_of_the_listing() {
    let file = gray(&[1, 2, 3]).to_file();
    let listing = vec![
        Entry { name: "sub".to_string(), content: None },
        Entry { name: "notes.txt".to_string(), content: Some(b"hello".to_vec()) },
        Entry { name: "one".to_string(), content: Some(file.clone()) },
        Entry { name: "cut".to_string(), content: Some(file[..34].to_vec()) },
        Entry { name: "two".to_string(), content: Some(file.clone()) },
    ];
    let mut db = DB::open("root", Some(listing)).unwrap();
    assert_eq!(db.nodes(), 5);
    assert_eq!(db.node_name(1), "notes.txt");
    assert_eq!(db.node_content(1).unwrap(), &b"hello".to_vec());
    assert!(db.node_content(0).is_none());
    assert_eq!(keys(&db), vec!["one".to_string(), "two".to_string()]);
    assert!(db.file_is_valid("one"));
    assert!(!db.file_is_valid("cut"));
    assert!(!db.file_is_valid("sub"));
    assert!(!db.file_is_valid("none"));
    assert!(!db.is_locked("one"));
    assert_eq!(db.file("one").unwrap(), &file);
    assert!(db.file("sub").is_none());
    assert!(matches!(db.get("sub", false), Err(Error::Sys(ImagedStatus::IMAGED_ERR_FILE_DOES_NOT_EXIST))));
    assert!(matches!(db.get("cut", false), Err(Error::Sys(ImagedStatus::IMAGED_ERR_INVALID_FILE))));
    assert!(matches!(db.get("notes.txt", true), Err(Error::Sys(ImagedStatus::IMAGED_ERR_INVALID_FILE))));
    assert!(matches!(
        db.set("sub", &gray(&[1])),
        Err(Error::Sys(ImagedStatus::IMAGED_ERR_CANNOT_CREATE_FILE))
    ));
    assert!(matches!(db.remove("sub"), Err(Error::Sys(ImagedStatus::IMAGED_ERR_FILE_DOES_NOT_EXIST))));
    put(&mut db, "cut", &[9]);
    assert_eq!(keys(&db), vec!["one".to_string(), "cut".to_string(), "two".to_string()]);
    db.remove("notes.txt").unwrap();
    assert_eq!(db.nodes(), 4);
    let mut iter = db.iter().unwrap();
    let (key, image) = iter.next().unwrap();
    assert_eq!(key, "one");
    assert_eq!(image.buffer().unwrap(), &[1u8, 2, 3][..]);
    assert_eq!(image.ownership(), imaged::Ownership::Borrowed);
    assert_eq!(db.destroy().unwrap(), vec!["one".to_string(), "cut".to_string(), "two".to_string()]);
}

#[test]
fn keys_must_be_file_names() {
    let mut db = DB::open("root", Some(Vec::new())).unwrap();
    let long = "k".repeat(256);
    for key in ["", ".", "..", "a/b", "/", "a\0", long.as_str()] {
        assert!(!imaged::db::is_valid_key(key), "{:?}", key);
        assert!(matches!(
            db.set(key, &gray(&[1])),
            Err(Error::Sys(ImagedStatus::IMAGED_ERR_INVALID_KEY))
        ));
        assert!(matches!(db.get(key, false), Err(Error::Sys(ImagedStatus::IMAGED_ERR_INVALID_KEY))));
        assert!(matches!(db.remove(key), Err(Error::Sys(ImagedStatus::IMAGED_ERR_INVALID_KEY))));
        assert!(!db.file_is_valid(key));
    }
    assert_eq!(db.nodes(), 0);
    let longest = "k".repeat(255);
    for key in ["a", "...", ".a", "a b", "testing", "\u{e9}t\u{e9}", longest.as_str()] {
        assert!(imaged::db::is_valid_key(key), "{:?}", key);
        put(&mut db, key, &[1]);
        assert!(db.file_is_valid(key));
    }
    assert!(!imaged::db::is_valid_key(&"\u{e9}".repeat(128)));
    assert!(imaged::db::is_valid_key(&"\u{e9}".repeat(127)));
    assert!(imaged::db::is_valid_path(""));
    assert!(!imaged::db::is_valid_path("\0"));
}

#[test]
fn round_trip_through_the_store() {
    let types = [
        Type::I(8),
        Type::I(16),
        Type::I(32),
        Type::U(8),
        Type::U(16),
        Type::U(32),
        Type::F(32),
    ];
    let colors = [Color::Gray, Color::GrayA, Color::RGB, Color::RGBA, Color::CMYKA, Color::HSV];
    let mut db = DB::open("root", Some(Vec::new())).unwrap();
    for ty in types.iter() {
        for color in colors.iter() {
            let meta = Meta::new(3, 2, *color, *ty);
            let data: Vec<u8> = (0..meta.total_bytes()).map(|i| (i * 7 + 1) as u8).collect();
            let image = Image::new_with_data(meta, data.clone()).unwrap();
            let handle = db.set("key", &image).unwrap();
            db.close(handle).unwrap();
            let mut handle = db.get("key", false).unwrap();
            assert_eq!(*handle.image().meta(), meta);
            assert_eq!(handle.image().buffer().unwrap(), &data[..]);
            assert_eq!(handle.image().ownership(), imaged::Ownership::StoreMapped);
            db.close(handle).unwrap();
            let mut file = imaged::header::encode_header(&meta);
            file.extend_from_slice(&data);
            assert_eq!(db.file("key").unwrap(), &file);
        }
    }
    assert_eq!(db.nodes(), 1);
}

#[test]
fn set_raw_fills_with_zeros() {
    let mut db = DB::open("root", Some(Vec::new())).unwrap();
    let meta = Meta::new(2, 2, Color::Gray, Type::U(8));
    let mut handle = db.set_raw("zero", meta, None).unwrap();
    assert_eq!(handle.image().buffer().unwrap(), &[0u8; 4][..]);
    assert_eq!(handle.key(), "zero");
    assert!(handle.is_editable());
    db.close(handle).unwrap();
    let handle = db.set_raw("data", meta, Some(&[1, 2, 3, 4])).unwrap();
    db.close(handle).unwrap();
    assert_eq!(&db.file("data").unwrap()[32..], &[1u8, 2, 3, 4][..]);
    assert!(matches!(db.set_raw("short", meta, Some(&[1, 2, 3])), Err(Error::IncorrectImageType)));
    assert!(matches!(db.set_raw("bad", meta.with_type(Type::F(8)), None), Err(Error::NullPointer)));
    assert!(matches!(
        db.set_raw("a/b", meta, None),
        Err(Error::Sys(ImagedStatus::IMAGED_ERR_INVALID_KEY))
    ));
    assert_eq!(keys(&db), vec!["zero".to_string(), "data".to_string()]);
}

#[test]
fn edits_reach_the_store_when_an_editable_handle_closes() {
    let mut db = DB::open("root", Some(Vec::new())).unwrap();
    put(&mut db, "a", &[1, 2, 3]);
    let mut handle = db.get("a", true).unwrap();
    handle.image().buffer_mut().unwrap()[1] = 9;
    assert_eq!(&db.file("a").unwrap()[32..], &[1u8, 2, 3][..]);
    db.close(handle).unwrap();
    assert_eq!(&db.file("a").unwrap()[32..], &[1u8, 9, 3][..]);
    let mut reader = db.get("a", false).unwrap();
    assert!(!reader.is_editable());
    reader.image().buffer_mut().unwrap()[0] = 7;
    db.close(reader).unwrap();
    assert_eq!(&db.file("a").unwrap()[32..], &[1u8, 9, 3][..]);
    let mut handle = db.get("a", true).unwrap();
    handle
        .image()
        .convert_in_place(Color::Gray, Type::U(16), Some(vec![1, 0, 2, 0, 3, 0]))
        .unwrap();
    db.close(handle).unwrap();
    let mut handle = db.get("a", false).unwrap();
    assert_eq!(handle.image().data::<u16>().unwrap(), vec![1u16, 2, 3]);
    db.close(handle).unwrap();
}

#[test]
fn readers_share_and_writers_wait() {
    let mut db = DB::open("root", Some(Vec::new())).unwrap();
    put(&mut db, "a", &[1]);
    let r1 = db.get("a", false).unwrap();
    let r2 = db.get("a", false).unwrap();
    assert!(db.is_locked("a"));
    let w = db.get("a", true);
    assert!(matches!(w, Err(Error::Sys(ImagedStatus::IMAGED_ERR_LOCKED))));
    assert!(w.err().unwrap().is_retryable());
    assert!(matches!(db.set("a", &gray(&[2])), Err(Error::Sys(ImagedStatus::IMAGED_ERR_LOCKED))));
    assert!(matches!(db.remove("a"), Err(Error::Sys(ImagedStatus::IMAGED_ERR_LOCKED))));
    db.close(r1).unwrap();
    assert!(db.is_locked("a"));
    assert!(matches!(db.get("a", true), Err(Error::Sys(ImagedStatus::IMAGED_ERR_LOCKED))));
    db.close(r2).unwrap();
    assert!(!db.is_locked("a"));
    let w = db.get("a", true).unwrap();
    assert!(matches!(db.get("a", false), Err(Error::Sys(ImagedStatus::IMAGED_ERR_LOCKED))));
    db.close(w).unwrap();
    db.remove("a").unwrap();
    assert!(!db.is_locked("a"));
}

#[test]
fn a_handle_that_is_not_open_cannot_be_closed() {
    let mut db = DB::open("root", Some(Vec::new())).unwrap();
    put(&mut db, "a", &[1]);
    let mut other = DB::open("other", Some(Vec::new())).unwrap();
    put(&mut other, "a", &[1]);
    let stale = other.get("a", true).unwrap();
    assert!(matches!(db.close(stale), Err(Error::Sys(ImagedStatus::IMAGED_ERR))));
    assert!(other.is_locked("a"));
    other.reset_locks();
    assert!(!other.is_locked("a"));
    let second = other.get("a", false).unwrap();
    other.reset_locks();
    assert!(matches!(other.close(second), Err(Error::Sys(ImagedStatus::IMAGED_ERR))));
    let reader = db.get("a", false).unwrap();
    db.reset_locks();
    assert!(!db.is_locked("a"));
    assert!(matches!(db.close(reader), Err(Error::Sys(ImagedStatus::IMAGED_ERR))));
    let handle = db.get("a", true).unwrap();
    db.reset_locks();
    db.remove("a").unwrap();
    assert!(matches!(
        db.close(handle),
        Err(Error::Sys(ImagedStatus::IMAGED_ERR_FILE_DOES_NOT_EXIST))
    ));
}

#[test]
fn removed_keys_are_gone() {
    let mut db = DB::open("root", Some(Vec::new())).unwrap();
    put(&mut db, "a", &[1]);
    put(&mut db, "b", &[2]);
    db.remove("a").unwrap();
    assert!(matches!(db.get("a", false), Err(Error::Sys(ImagedStatus::IMAGED_ERR_FILE_DOES_NOT_EXIST))));
    assert!(matches!(db.remove("a"), Err(Error::Sys(ImagedStatus::IMAGED_ERR_FILE_DOES_NOT_EXIST))));
    assert!(!db.file_is_valid("a"));
    assert!(db.file("a").is_none());
    let mut iter = db.iter().unwrap();
    let (key, _) = iter.next().unwrap();
    assert_eq!(key, "b");
    assert!(iter.next().is_none());
    assert!(iter.next().is_none());
}

#[test]
fn iteration_yields_what_was_put_and_not_removed() {
    let mut db = DB::open("root", Some(Vec::new())).unwrap();
    let all = ["k0", "k1", "k2", "k3", "k4", "k5", "k6"];
    for (i, key) in all.iter().enumerate() {
        put(&mut db, key, &[i as u8]);
    }
    for key in ["k1", "k6", "k3"] {
        db.remove(key).unwrap();
    }
    assert_eq!(keys(&db), vec!["k0", "k2", "k4", "k5"]);
    let mut iter = db.iter().unwrap();
    let mut found = Vec::new();
    while let Some((key, image)) = iter.next() {
        found.push((key.to_string(), image.buffer().unwrap()[0]));
    }
    assert_eq!(
        found,
        vec![("k0".to_string(), 0u8), ("k2".to_string(), 2), ("k4".to_string(), 4), ("k5".to_string(), 5)]
    );
    iter.reset();
    assert_eq!(iter.next().unwrap().0, "k0");
    let mut keys_iter = db.iter_keys().unwrap();
    assert_eq!(keys_iter.next(), Some("k0"));
    assert_eq!(keys_iter.next(), Some("k2"));
    keys_iter.reset();
    assert_eq!(keys_iter.next(), Some("k0"));
}

#[test]
fn setting_a_key_again_keeps_its_place() {
    let mut db = DB::open("root", Some(Vec::new())).unwrap();
    put(&mut db, "a", &[1]);
    put(&mut db, "b", &[2]);
    put(&mut db, "a", &[3, 4]);
    assert_eq!(keys(&db), vec!["a", "b"]);
    assert_eq!(&db.file("a").unwrap()[32..], &[3u8, 4][..]);
    assert_eq!(db.nodes(), 2);
}

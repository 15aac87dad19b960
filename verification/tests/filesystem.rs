use qwasm2::filesystem::{
    normalize_path, parse_pack_data, read_u32_le, FileSystem, GameDirectory, Pack,
    PAK_ENTRY_NAME_LEN, PAK_MAGIC,
};

fn create_test_pak(files: &[(&str, &[u8])]) -> Vec<u8> {
    let mut pak = Vec::new();
    pak.extend_from_slice(&[0u8; 12]);
    let mut entries = Vec::new();
    for (name, data) in files {
        let offset = pak.len() as u32;
        let size = data.len() as u32;
        pak.extend_from_slice(data);
        entries.push((name.to_string(), offset, size));
    }
    let dir_offset = pak.len() as u32;
    for (name, offset, size) in &entries {
        let mut name_buf = [0u8; PAK_ENTRY_NAME_LEN];
        let name_bytes = name.as_bytes();
        let copy_len = name_bytes.len().min(55);
        name_buf[..copy_len].copy_from_slice(&name_bytes[..copy_len]);
        pak.extend_from_slice(&name_buf);
        pak.extend_from_slice(&offset.to_le_bytes());
        pak.extend_from_slice(&size.to_le_bytes());
    }
    let dir_len = (entries.len() as u32) * 64;
    pak[0..4].copy_from_slice(&PAK_MAGIC.to_le_bytes());
    pak[4..8].copy_from_slice(&dir_offset.to_le_bytes());
    pak[8..12].copy_from_slice(&dir_len.to_le_bytes());
    pak
}

fn drop_message<T>(r: Result<T, qwasm2::error::Q2Error>) -> String {
    match r {
        Err(qwasm2::error::Q2Error::Drop(m)) => m,
        Err(_) => panic!("not a drop error"),
        Ok(_) => panic!("expected an error"),
    }
}

#[test]
fn normalize_path_converts_backslashes() {
    assert_eq!(normalize_path("models\\player\\male.md2"), "models/player/male.md2");
}

#[test]
fn normalize_path_lowercases() {
    assert_eq!(normalize_path("Models/Player/MALE.MD2"), "models/player/male.md2");
}

#[test]
fn normalize_path_strips_dot_slash() {
    assert_eq!(normalize_path("./maps/base1.bsp"), "maps/base1.bsp");
}

#[test]
fn normalize_path_strips_repeated_dot_slash_only_at_start() {
    assert_eq!(normalize_path("././a/./b"), "a/./b");
    assert_eq!(normalize_path(".\\X"), "x");
}

#[test]
fn pak_from_bytes_valid() {
    let data = create_test_pak(&[("maps/test.bsp", b"BSP_DATA_HERE"), ("textures/wall.wal", b"WAL_DATA")]);
    let pack = Pack::load_from_bytes("pak0.pak", &data).unwrap();
    assert_eq!(pack.files.len(), 2);
    assert!(pack.files.contains_key("maps/test.bsp"));
    assert!(pack.files.contains_key("textures/wall.wal"));
    assert_eq!(pack.path, "pak0.pak");
}

#[test]
fn pak_read_file_from_memory() {
    let content = b"THIS_IS_BSP_DATA_1234567890";
    let data = create_test_pak(&[("maps/test.bsp", content)]);
    let pack = Pack::load_from_bytes("pak0.pak", &data).unwrap();
    assert!(pack.in_memory());
    let entry = pack.files.get("maps/test.bsp").unwrap();
    assert_eq!(entry.offset, 12);
    assert_eq!(entry.size, content.len() as u32);
    assert_eq!(pack.read_file(entry).unwrap(), content.to_vec());
}

#[test]
fn pak_read_past_end_is_error() {
    let data = create_test_pak(&[("a.txt", b"abc")]);
    let pack = Pack::load_from_bytes("p.pak", &data).unwrap();
    let mut entry = pack.files.get("a.txt").unwrap().clone();
    entry.size = 100_000;
    assert_eq!(drop_message(pack.read_file(&entry)), "p.pak: file 'a.txt' extends past end of PAK");
}

#[test]
fn pak_invalid_magic_rejected() {
    let r = Pack::load_from_bytes("bad.pak", b"NOT_A_PAK_FILE_AT_ALL");
    assert_eq!(drop_message(r), "bad.pak: not a PAK file (magic: 0x5f544f4e)");
}

#[test]
fn pak_too_small_rejected() {
    let r = parse_pack_data("tiny", b"PACK");
    assert_eq!(drop_message(r), "tiny: data too small for PAK header");
}

#[test]
fn pak_bad_directory_length_rejected() {
    let mut data = create_test_pak(&[("a", b"x")]);
    data[8..12].copy_from_slice(&65u32.to_le_bytes());
    assert_eq!(drop_message(parse_pack_data("p", &data)), "p: invalid PAK directory length 65");
}

#[test]
fn pak_too_many_files_rejected() {
    let mut data = create_test_pak(&[]);
    data[8..12].copy_from_slice(&(4097u32 * 64).to_le_bytes());
    assert_eq!(drop_message(parse_pack_data("p", &data)), "p: too many files (4097 > 4096)");
}

#[test]
fn pak_truncated_directory_rejected() {
    let mut data = create_test_pak(&[("a", b"x")]);
    let n = data.len();
    data.truncate(n - 20);
    let m = drop_message(parse_pack_data("p", &data));
    assert!(m.starts_with("p: truncated directory: "), "{m}");
    let mut data2 = create_test_pak(&[("a", b"x")]);
    let n2 = data2.len();
    data2.truncate(n2 - 2);
    let m2 = drop_message(parse_pack_data("p", &data2));
    assert!(m2.starts_with("read error: "), "{m2}");
}

#[test]
fn pak_later_duplicate_replaces_earlier() {
    let data = create_test_pak(&[("Dup.TXT", b"one"), ("dup.txt", b"second")]);
    let pack = Pack::load_from_bytes("p", &data).unwrap();
    assert_eq!(pack.files.len(), 1);
    let e = pack.files.get("dup.txt").unwrap();
    assert_eq!(pack.read_file(e).unwrap(), b"second".to_vec());
}

#[test]
fn read_u32_le_reads_and_reports_short_input() {
    assert_eq!(read_u32_le(&[1, 2, 3, 4, 5]).unwrap(), 0x04030201);
    let m = drop_message(read_u32_le(&[1, 2]));
    assert!(m.starts_with("read error: "));
}

#[test]
fn filesystem_file_exists_in_pack_case_insensitive() {
    let data = create_test_pak(&[("Maps/Test.BSP", b"data")]);
    let mut fs = FileSystem::new("baseq2");
    fs.add_pack(Pack::load_from_bytes("pak0.pak", &data).unwrap());
    assert!(fs.file_exists("maps/test.bsp"));
    assert!(fs.file_exists("MAPS\\TEST.bsp"));
    assert!(!fs.file_exists("maps/nope.bsp"));
    assert_eq!(fs.game_dir(), "baseq2");
    assert_eq!(fs.search_path_count(), 1);
}

#[test]
fn filesystem_file_exists_in_directory() {
    let mut fs = FileSystem::new("baseq2");
    fs.add_directory(GameDirectory { path: "/q2/baseq2".to_string(), files: vec!["maps/test.bsp".to_string()] });
    assert!(fs.file_exists("./maps/test.bsp"));
    assert!(!fs.file_exists("maps/other.bsp"));
}

#[test]
fn filesystem_list_files_sorted_unique() {
    let data = create_test_pak(&[("maps/b.bsp", b""), ("maps/c.txt", b""), ("maps/z.BSP", b"")]);
    let mut fs = FileSystem::new("baseq2");
    fs.add_pack(Pack::load_from_bytes("pak0.pak", &data).unwrap());
    fs.add_directory(GameDirectory {
        path: "/q2/baseq2".to_string(),
        files: vec!["maps/a.bsp".to_string(), "maps/B.bsp".to_string(), "maps/c.txt".to_string()],
    });
    let bsp_files = fs.list_files("BSP");
    assert_eq!(bsp_files, vec!["maps/a.bsp", "maps/b.bsp", "maps/z.bsp"]);
    assert_eq!(fs.list_files("wal"), Vec::<String>::new());
}

#[test]
fn filesystem_directory_overrides_pak() {
    let data = create_test_pak(&[("maps/test.bsp", b"FROM_PAK")]);
    let mut fs = FileSystem::new("baseq2");
    fs.add_pack(Pack::load_from_bytes("pak0.pak", &data).unwrap());
    fs.add_directory(GameDirectory { path: "/q2/baseq2".to_string(), files: vec!["maps/test.bsp".to_string()] });
    assert_eq!(fs.locate("maps/test.bsp"), Some(1));
    assert_eq!(fs.locate("MAPS/TEST.BSP"), Some(1));
    assert_eq!(fs.locate("nonexistent.bsp"), None);
    match fs.search_path(1) {
        qwasm2::filesystem::SearchPath::Directory(d) => assert_eq!(d.path, "/q2/baseq2"),
        _ => panic!("expected a directory"),
    }
}

#[test]
fn filesystem_file_not_found() {
    let fs = FileSystem::new("baseq2");
    assert_eq!(fs.locate("nonexistent.bsp"), None);
    assert!(!fs.file_exists("nonexistent.bsp"));
}

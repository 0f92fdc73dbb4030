use madsim::addr::Addr;
use madsim::fs::{read, ErrorKind, File, FileSystemHandle, FileSystemLocalHandle, FileSystemRuntime};

#[test]
fn create_open_read_write() {
    let mut fs = FileSystemLocalHandle::new(Addr::new(1, 1));
    assert_eq!(
        File::open(&fs, "file").err().unwrap().kind(),
        ErrorKind::NotFound
    );
    let file = File::create(&mut fs, "file").unwrap();
    file.write_all_at(&mut fs, b"hello", 0).unwrap();

    let mut buf = [0u8; 10];
    let read_len = file.read_at(&fs, &mut buf, 2).unwrap();
    assert_eq!(read_len, 3);
    assert_eq!(&buf[..3], b"llo");
    drop(file);

    // writing to a read-only file should be denied
    let rofile = File::open(&fs, "file").unwrap();
    assert_eq!(
        rofile.write_all_at(&mut fs, b"gg", 0).err().unwrap().kind(),
        ErrorKind::PermissionDenied
    );

    // create should truncate existing file
    let file = File::create(&mut fs, "file").unwrap();
    let read_len = file.read_at(&fs, &mut buf, 0).unwrap();
    assert_eq!(read_len, 0);
}

#[test]
fn write_then_read_round_trip() {
    let mut fs = FileSystemLocalHandle::new(Addr::new(1, 1));
    let file = File::create(&mut fs, "data").unwrap();
    file.write_all_at(&mut fs, b"round trip", 0).unwrap();
    let mut buf = [0u8; 10];
    assert_eq!(file.read_at(&fs, &mut buf, 0).unwrap(), 10);
    assert_eq!(&buf, b"round trip");
}

#[test]
fn short_read_returns_available_bytes() {
    let mut fs = FileSystemLocalHandle::new(Addr::new(1, 1));
    let file = File::create(&mut fs, "f").unwrap();
    file.write_all_at(&mut fs, b"abcd", 0).unwrap();
    let mut buf = [7u8; 8];
    assert_eq!(file.read_at(&fs, &mut buf, 1).unwrap(), 3);
    assert_eq!(&buf, &[b'b', b'c', b'd', 7, 7, 7, 7, 7]);
    assert_eq!(file.read_at(&fs, &mut buf, 4).unwrap(), 0);
    assert_eq!(file.read_at(&fs, &mut buf, 100).unwrap(), 0);
}

#[test]
fn write_overwrites_and_extends() {
    let mut fs = FileSystemLocalHandle::new(Addr::new(1, 1));
    let file = File::create(&mut fs, "f").unwrap();
    file.write_all_at(&mut fs, b"hello", 0).unwrap();
    file.write_all_at(&mut fs, b"LLO!!", 2).unwrap();
    assert_eq!(read(&fs, "f").unwrap(), b"heLLO!!".to_vec());
    file.write_all_at(&mut fs, b"x", 1).unwrap();
    assert_eq!(read(&fs, "f").unwrap(), b"hxLLO!!".to_vec());
}

#[test]
fn handles_alias_one_inode() {
    let mut fs = FileSystemLocalHandle::new(Addr::new(1, 1));
    let writer = File::create(&mut fs, "shared").unwrap();
    let reader = File::open(&fs, "shared").unwrap();
    writer.write_all_at(&mut fs, b"seen", 0).unwrap();
    let mut buf = [0u8; 4];
    assert_eq!(reader.read_at(&fs, &mut buf, 0).unwrap(), 4);
    assert_eq!(&buf, b"seen");
}

#[test]
fn set_len_cuts_and_zero_extends() {
    let mut fs = FileSystemLocalHandle::new(Addr::new(1, 1));
    let file = File::create(&mut fs, "f").unwrap();
    file.write_all_at(&mut fs, b"abcdef", 0).unwrap();
    file.set_len(&mut fs, 3).unwrap();
    assert_eq!(read(&fs, "f").unwrap(), b"abc".to_vec());
    file.set_len(&mut fs, 5).unwrap();
    assert_eq!(read(&fs, "f").unwrap(), vec![b'a', b'b', b'c', 0, 0]);
}

#[test]
fn read_of_missing_path_is_not_found() {
    let fs = FileSystemLocalHandle::new(Addr::new(1, 1));
    assert_eq!(read(&fs, "nope").err().unwrap().kind(), ErrorKind::NotFound);
}

#[test]
fn power_fail_keeps_only_synced_bytes() {
    let mut fs = FileSystemLocalHandle::new(Addr::new(1, 1));
    let file = File::create(&mut fs, "f").unwrap();
    file.write_all_at(&mut fs, b"durable", 0).unwrap();
    file.sync_all(&mut fs).unwrap();
    file.write_all_at(&mut fs, b"lost", 7).unwrap();
    assert_eq!(read(&fs, "f").unwrap(), b"durablelost".to_vec());
    fs.power_fail();
    assert_eq!(read(&fs, "f").unwrap(), b"durable".to_vec());
}

#[test]
fn nodes_have_isolated_filesystems() {
    let mut runtime = FileSystemRuntime::new();
    let all: &mut FileSystemHandle = runtime.handle_mut();
    {
        let a = all.local_handle(Addr::new(1, 1));
        File::create(a, "only-on-a").unwrap();
    }
    {
        let b = all.local_handle(Addr::new(2, 1));
        assert_eq!(b.addr(), Addr::new(2, 1));
        assert!(File::open(b, "only-on-a").is_err());
    }
    let a = all.local_handle(Addr::new(1, 1));
    assert!(File::open(a, "only-on-a").is_ok());
}

#[test]
fn power_fail_by_address() {
    let mut all = FileSystemHandle::new();
    {
        let a = all.local_handle(Addr::new(1, 1));
        let f = File::create(a, "f").unwrap();
        f.write_all_at(a, b"kept", 0).unwrap();
        f.sync_all(a).unwrap();
        f.write_all_at(a, b"!", 4).unwrap();
    }
    all.power_fail(Addr::new(9, 9));
    all.power_fail(Addr::new(1, 1));
    let a = all.local_handle(Addr::new(1, 1));
    assert_eq!(read(a, "f").unwrap(), b"kept".to_vec());
}

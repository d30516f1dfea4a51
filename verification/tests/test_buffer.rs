use libipc::IpcBuffer;

#[test]
fn default_constructor() {
    let buf = IpcBuffer::new();
    assert!(buf.is_empty());
    assert_eq!(buf.len(), 0);
    assert!(buf.data().is_empty());
}

#[test]
fn from_slice() {
    let data = b"Hello, World!";
    let buf = IpcBuffer::from_slice(data);
    assert!(!buf.is_empty());
    assert_eq!(buf.len(), data.len());
    assert_eq!(buf.data(), data);
}

#[test]
fn from_str() {
    let buf = IpcBuffer::from_str("Hello");
    assert!(!buf.is_empty());
    assert_eq!(buf.len(), 6); // includes null terminator
    assert_eq!(buf.data()[..5], *b"Hello");
    assert_eq!(buf.data()[5], 0);
}

#[test]
fn clone() {
    let buf1 = IpcBuffer::from_slice(b"Clone test");
    let buf2 = buf1.clone();
    assert_eq!(buf1, buf2);
    assert!(!buf2.is_empty());
    assert_eq!(buf2.len(), 10);
}

#[test]
fn swap() {
    let mut buf1 = IpcBuffer::from_slice(b"Buffer 1");
    let mut buf2 = IpcBuffer::from_slice(b"Buffer 2 longer");

    let len1 = buf1.len();
    let len2 = buf2.len();

    buf1.swap(&mut buf2);

    assert_eq!(buf1.len(), len2);
    assert_eq!(buf2.len(), len1);
    assert_eq!(buf1.data(), b"Buffer 2 longer");
    assert_eq!(buf2.data(), b"Buffer 1");
}

#[test]
fn empty_method() {
    let buf1 = IpcBuffer::new();
    assert!(buf1.is_empty());

    let buf2 = IpcBuffer::from_slice(b"data");
    assert!(!buf2.is_empty());
}

#[test]
fn to_vec() {
    let data: &[u8] = &[10, 20, 30, 40, 50];
    let buf = IpcBuffer::from_slice(data);
    let vec = buf.to_vec();
    assert_eq!(vec.len(), 5);
    assert_eq!(vec, data);
}

#[test]
fn equality() {
    let buf1 = IpcBuffer::from_slice(&[1, 2, 3, 4, 5]);
    let buf2 = IpcBuffer::from_slice(&[1, 2, 3, 4, 5]);
    let buf3 = IpcBuffer::from_slice(&[5, 4, 3, 2, 1]);

    assert_eq!(buf1, buf2);
    assert_ne!(buf1, buf3);
}

#[test]
fn equality_different_sizes() {
    let buf1 = IpcBuffer::from_slice(&[1, 2, 3, 4, 5]);
    let buf2 = IpcBuffer::from_slice(&[1, 2, 3]);

    assert_ne!(buf1, buf2);
}

#[test]
fn empty_buffers_comparison() {
    let buf1 = IpcBuffer::new();
    let buf2 = IpcBuffer::new();

    assert_eq!(buf1, buf2);
}

#[test]
fn large_buffer() {
    let large_size = 1024 * 1024; // 1MB
    let data: Vec<u8> = (0..large_size).map(|i| (i % 256) as u8).collect();
    let buf = IpcBuffer::from_slice(&data);

    assert!(!buf.is_empty());
    assert_eq!(buf.len(), large_size);

    for i in 0..100 {
        assert_eq!(buf.data()[i], (i % 256) as u8);
    }
}

#[test]
fn into_vec_and_back() {
    let first = IpcBuffer::from_slice(b"Multi-move");
    let vec = first.into_vec();
    let buf = IpcBuffer::from_vec(vec);
    assert!(!buf.is_empty());
    assert_eq!(buf.data(), b"Multi-move");
}

#[test]
fn from_string() {
    let buf: IpcBuffer = String::from("test").into();
    assert_eq!(buf.len(), 5); // "test" + null
    assert_eq!(&buf.data()[..4], b"test");
}

#[test]
fn from_slice_trait() {
    let data: &[u8] = &[1, 2, 3];
    let buf: IpcBuffer = data.into();
    assert_eq!(buf.data(), &[1, 2, 3]);
}

#[test]
fn from_vec_trait() {
    let v = vec![10u8, 20, 30];
    let buf: IpcBuffer = v.into();
    assert_eq!(buf.data(), &[10, 20, 30]);
}

#[test]
fn data_mut() {
    let mut buf = IpcBuffer::from_slice(&[1, 2, 3]);
    buf.data_mut()[0] = 99;
    assert_eq!(buf.data()[0], 99);
}

#[test]
fn default() {
    let buf = IpcBuffer::default();
    assert!(buf.is_empty());
}

use yunfengzh_monolith::utils::SaveUtils;

const W: usize = std::mem::size_of::<usize>();

#[test]
fn prefix_len_puts_the_length_first() {
    let out = SaveUtils::prefix_len(vec![7, 8, 9]);
    assert_eq!(out.len(), W + 3);
    assert_eq!(out[..W].to_vec(), 3usize.to_ne_bytes().to_vec());
    assert_eq!(out[W..].to_vec(), vec![7, 8, 9]);
}

#[test]
fn prefix_len_of_empty_data() {
    let out = SaveUtils::prefix_len(Vec::new());
    assert_eq!(out, 0usize.to_ne_bytes().to_vec());
}

#[test]
fn read_prefix_len_reads_back_the_length() {
    let out = SaveUtils::prefix_len(vec![1; 300]);
    assert_eq!(SaveUtils::read_prefix_len(&out), 300);
}

#[test]
fn recalculate_gives_the_block_after_the_prefix() {
    let out = SaveUtils::prefix_len(vec![1, 2, 3, 4, 5]);
    assert_eq!(SaveUtils::recalculate(&out, 10), (10 + W, 10 + W + 5));
}

#[test]
fn typename_data_layout() {
    let rec = SaveUtils::typename_data(b"Hero".to_vec(), vec![1, 2]);
    let mut expected = 4usize.to_ne_bytes().to_vec();
    expected.extend_from_slice(b"Hero");
    expected.extend_from_slice(&2usize.to_ne_bytes());
    expected.extend_from_slice(&[1, 2]);
    assert_eq!(rec, expected);
}

#[test]
fn typename_data_roundtrip_at_start() {
    let rec = SaveUtils::typename_data(b"Hero".to_vec(), vec![10, 20, 30]);
    let ((ns, ne), (ds, de)) = SaveUtils::get_typename_data(&rec, 0);
    assert_eq!(&rec[ns..ne], b"Hero");
    assert_eq!(&rec[ds..de], &[10, 20, 30]);
    assert_eq!(de, rec.len());
}

#[test]
fn typename_data_roundtrip_after_other_records() {
    let mut buf = SaveUtils::typename_data(b"A".to_vec(), vec![1]);
    let pos = buf.len();
    buf.extend(SaveUtils::typename_data(b"Monster".to_vec(), vec![4, 5, 6, 7]));
    buf.extend(SaveUtils::typename_data(b"B".to_vec(), Vec::new()));
    let ((ns, ne), (ds, de)) = SaveUtils::get_typename_data(&buf, pos);
    assert_eq!(ns, pos + W);
    assert_eq!(&buf[ns..ne], b"Monster");
    assert_eq!(ds, ne + W);
    assert_eq!(&buf[ds..de], &[4, 5, 6, 7]);
    let ((ns, ne), (ds, de)) = SaveUtils::get_typename_data(&buf, de);
    assert_eq!(&buf[ns..ne], b"B");
    assert_eq!(ds, de);
    assert_eq!(de, buf.len());
}

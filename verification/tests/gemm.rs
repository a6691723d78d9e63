use infr::bytes::{bytes_at, get_le, put_bytes, put_le};
use infr::gemm::{matmul_plan, spv_words, GemmPlan};
use infr::text::{
    contains_text, has_char, push_decimal, push_hex, replace_char, same_text,
};

#[test]
fn product_sizes() {
    let p = matmul_plan(64 * 48, 48 * 32, 64, 48, 32);
    assert_eq!(
        p,
        GemmPlan {
            a_bytes: 6144,
            b_bytes: 3072,
            c_bytes: 8192,
            push_m: 64,
            push_n: 32,
            push_k: 48,
            groups_x: 2,
            groups_y: 4,
        }
    );
    let mut want = Vec::new();
    for w in [64u32, 32, 48] {
        want.extend_from_slice(&w.to_ne_bytes());
    }
    assert_eq!(p.push_bytes(), want);
}

#[test]
fn kernels_are_little_endian_words() {
    assert_eq!(spv_words(&[3, 2, 35, 7, 0, 0, 1, 0, 9]), vec![0x0723_0203, 0x0001_0000]);
    assert!(spv_words(&[1, 2, 3]).is_empty());
}

#[test]
fn integers_as_bytes() {
    let mut v = vec![9];
    put_le(&mut v, 0x1122_3344_5566_7788, 8);
    put_le(&mut v, 0xabcd, 2);
    assert_eq!(v, vec![9, 0x88, 0x77, 0x66, 0x55, 0x44, 0x33, 0x22, 0x11, 0xcd, 0xab]);
    assert_eq!(get_le(&v, 1, 8), 0x1122_3344_5566_7788);
    assert_eq!(get_le(&v, 9, 2), 0xabcd);
    assert_eq!(get_le(&[0xff; 8], 0, 8), u64::MAX);
    assert_eq!(get_le(&v, 0, 0), 0);
    assert!(bytes_at(&v, 9, &[0xcd, 0xab]) && !bytes_at(&v, 8, &[0xcd, 0xab]));
    put_bytes(&mut v, &[1, 2]);
    assert_eq!(v[11..], [1, 2]);
}

#[test]
fn pieces_of_text() {
    for n in [0, 7, 10, 1050, usize::MAX] {
        let mut s = String::new();
        push_decimal(&mut s, n);
        assert_eq!(s, n.to_string());
    }
    let mut s = "blk.".to_string();
    push_decimal(&mut s, 17);
    assert_eq!(s, "blk.17");
    let mut s = String::new();
    push_hex(&mut s, 0x1a2b, 8);
    assert_eq!(s, "00001a2b");
    assert!(has_char("a/b", '/') && !has_char("ab", '/'));
    assert_eq!(replace_char("sha256:a:b", ':', '-'), "sha256-a-b");
    assert!(same_text("é", "é") && !same_text("a", "ab") && !same_text("ab", "ac"));
    assert!(contains_text("blk.0.ffn_up_exps.weight", "_exps"));
    assert!(!contains_text("blk.0.ffn_up_exp", "_exps"));
    assert!(contains_text("x", "") && !contains_text("", "x"));
}

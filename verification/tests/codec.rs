use syntex::blake2b::Blake2bHasher;
use syntex::indexed_vec::IndexVec;
use syntex::leb128::{write_signed_leb128_to, write_unsigned_leb128_to};

#[test]
fn unsigned_leb128_known_encodings() {
    assert_eq!(write_unsigned_leb128_to(0), vec![0u8]);
    assert_eq!(write_unsigned_leb128_to(127), vec![127u8]);
    assert_eq!(write_unsigned_leb128_to(128), vec![0x80u8, 0x01]);
    assert_eq!(write_unsigned_leb128_to(624485), vec![0xe5u8, 0x8e, 0x26]);
    assert_eq!(write_unsigned_leb128_to(u128::MAX).len(), 19);
}

#[test]
fn signed_leb128_known_encodings() {
    assert_eq!(write_signed_leb128_to(0), vec![0u8]);
    assert_eq!(write_signed_leb128_to(-1), vec![0x7fu8]);
    assert_eq!(write_signed_leb128_to(63), vec![63u8]);
    assert_eq!(write_signed_leb128_to(64), vec![0xc0u8, 0x00]);
    assert_eq!(write_signed_leb128_to(-64), vec![0x40u8]);
    assert_eq!(write_signed_leb128_to(-65), vec![0xbfu8, 0x7f]);
    assert_eq!(write_signed_leb128_to(-123456), vec![0xc0u8, 0xbb, 0x78]);
    assert_eq!(write_signed_leb128_to(123456), vec![0xc0u8, 0xc4, 0x07]);
}

fn hex_of(bytes: &[u8]) -> String {
    let mut s = String::new();
    for b in bytes {
        s.push_str(&format!("{:02x}", b));
    }
    s
}

#[test]
fn blake2b_of_abc_matches_the_reference() {
    let mut hasher = Blake2bHasher::new(64);
    hasher.write(b"abc");
    let digest = hasher.finalize();
    assert_eq!(
        hex_of(&digest),
        "ba80a53f981c4d0d6a2797b69f12f6e94c212f14685ac4b74b12bb6fdbffa2d1\
         7d87c5392aab792dc252d5de4533cc9518d38aa8dbf1925ab92386edd4009923"
    );
}

#[test]
fn blake2b_of_nothing_matches_the_reference() {
    let mut hasher = Blake2bHasher::new(64);
    let digest = hasher.finalize();
    assert_eq!(
        hex_of(&digest),
        "786a02f742015903c6c6fd852552d272912f4740e15847618a86e217f71f5419\
         d25e1031afee585313896444934eb04b903a685b1448b755d56f701afe9be2ce"
    );
}

#[test]
fn blake2b_long_input_and_sixty_four_bit_finish() {
    let mut hasher = Blake2bHasher::new(8);
    let data = vec![b'a'; 200];
    hasher.write(&data);
    let digest = hasher.finalize();
    assert_eq!(hex_of(&digest), "b40af6d2f2f34472");
    assert_eq!(hasher.finish(), 0x7244f3f2d2f60ab4);
    // a second finalize hands the same digest back
    assert_eq!(hex_of(&hasher.finalize()), "b40af6d2f2f34472");
}

#[test]
fn blake2b_update_in_pieces_equals_one_write() {
    let mut one = Blake2bHasher::new(32);
    one.write(&vec![7u8; 300]);
    let d1 = one.finalize();
    let mut two = Blake2bHasher::new(32);
    two.write(&vec![7u8; 128]);
    two.write(&vec![7u8; 172]);
    let d2 = two.finalize();
    assert_eq!(d1, d2);
}

#[test]
fn index_vec_push_get_and_len() {
    let mut v: IndexVec<usize, &str> = IndexVec::new();
    assert!(v.is_empty());
    let a = v.push("zero");
    let b = v.push("one");
    assert_eq!(a, 0);
    assert_eq!(b, 1);
    assert_eq!(v.len(), 2);
    assert_eq!(v.get(1usize), Some(&"one"));
    assert_eq!(v.get(2usize), None);
    assert_eq!(v.last(), Some(1usize));
}

#[test]
fn index_vec_with_u32_indexes() {
    let mut v: IndexVec<u32, u64> = IndexVec::with_capacity(4);
    let i = v.push(10);
    let j = v.push(20);
    assert_eq!(i, 0u32);
    assert_eq!(j, 1u32);
    assert_eq!(v.get(j), Some(&20));
    v.swap(0, 1);
    assert_eq!(v.get(i), Some(&20));
    assert_eq!(v.get(j), Some(&10));
}

#[test]
fn index_vec_resize_truncate_and_iter() {
    let mut v: IndexVec<usize, u8> = IndexVec::from_elem_n(3, 4);
    assert_eq!(v.len(), 4);
    v.resize(6, 9);
    assert_eq!(v.len(), 6);
    let collected: Vec<u8> = v.iter().copied().collect();
    assert_eq!(collected, vec![3, 3, 3, 3, 9, 9]);
    v.truncate(2);
    assert_eq!(v.len(), 2);
    if let Some(slot) = v.get_mut(0usize) {
        *slot = 5;
    }
    assert_eq!(v.get(0usize), Some(&5));
    let consumed: Vec<u8> = v.into_iter().collect();
    assert_eq!(consumed, vec![5, 3]);
    let w: IndexVec<usize, u8> = IndexVec::from_elem_n(1, 2);
    let u: IndexVec<usize, bool> = IndexVec::from_elem(true, &w);
    assert_eq!(u.len(), 2);
    v = IndexVec::default();
    assert!(v.is_empty());
    v.shrink_to_fit();
    assert!(v.is_empty());
}

use ringsignature::field::{random_scalar, Scalar};
use ringsignature::group::{random_point, Point};
use ringsignature::ringsig::shuffle;
use ringsignature::vec::{
    convert, generate_powers, hadamard_product, inner_product, scalar_product, vec_add, vec_split,
};

fn s(v: u64) -> Scalar {
    Scalar::from_u64(v)
}

#[test]
fn vec_test_convert() {
    let msg: [u64; 4] = [1, 2, 3, 4];
    let msg_field: Vec<Scalar> = convert(&msg);
    assert_eq!(msg_field, vec![s(1), s(2), s(3), s(4)]);
}

#[test]
fn vec_test_shuffle() {
    let pk = random_point();
    let mut vec_pk = vec![random_point(); 3usize];
    vec_pk.push(pk);
    let before = vec_pk.clone();
    let vec_b = shuffle(&mut vec_pk, pk);
    assert_eq!(vec_b.len(), 4);
    let mut ones = 0;
    for i in 0..vec_b.len() {
        if vec_b[i] == s(1) {
            ones += 1;
            assert_eq!(pk, vec_pk[i]);
        } else {
            assert_eq!(vec_b[i], s(0));
            assert!(pk != vec_pk[i]);
        }
    }
    assert_eq!(ones, 1);
    for p in before.iter() {
        let a = before.iter().filter(|q| *q == p).count();
        let b = vec_pk.iter().filter(|q| *q == p).count();
        assert_eq!(a, b);
    }
}

#[test]
fn test_inner_product() {
    let a: [u64; 4] = [1, 2, 3, 4];
    let vec_a: Vec<Scalar> = convert(&a);
    let b: [u64; 4] = [4, 3, 2, 1];
    let vec_b: Vec<Scalar> = convert(&b);
    let result = inner_product(&vec_a, &vec_b);
    assert_eq!(result, s(20));
}

#[test]
fn test_generate_powers() {
    let y = s(2);
    let n = 4;
    let result = generate_powers(y, n);
    assert_eq!(result, vec![s(2), s(4), s(8), s(16)]);
}

#[test]
fn inner_product_is_symmetric() {
    let a: Vec<Scalar> = (0..8).map(|_| random_scalar()).collect();
    let b: Vec<Scalar> = (0..8).map(|_| random_scalar()).collect();
    assert_eq!(inner_product(&a, &b), inner_product(&b, &a));
}

#[test]
fn inner_product_of_empty_vectors_is_zero() {
    assert_eq!(inner_product(&vec![], &vec![]), s(0));
}

#[test]
fn hadamard_is_commutative_and_associative() {
    let a: Vec<Scalar> = (0..5).map(|_| random_scalar()).collect();
    let b: Vec<Scalar> = (0..5).map(|_| random_scalar()).collect();
    let c: Vec<Scalar> = (0..5).map(|_| random_scalar()).collect();
    assert_eq!(hadamard_product(&a, &b), hadamard_product(&b, &a));
    assert_eq!(
        hadamard_product(&hadamard_product(&a, &b), &c),
        hadamard_product(&a, &hadamard_product(&b, &c))
    );
    assert_eq!(hadamard_product(&convert(&[2, 3]), &convert(&[5, 7])), convert(&[10, 21]));
}

#[test]
fn powers_start_at_y_and_end_at_y_to_the_n() {
    let y = random_scalar();
    let n = 9;
    let p = generate_powers(y, n);
    assert_eq!(p[0], y);
    let mut expected = s(1);
    for _ in 0..n {
        expected = expected.mul(&y);
    }
    assert_eq!(p[n - 1], expected);
    assert!(generate_powers(y, 0).is_empty());
}

#[test]
fn split_add_and_scale() {
    let v = convert(&[1, 2, 3, 4, 5]);
    let (l, r) = vec_split(&v, 2);
    assert_eq!(l, convert(&[1, 2]));
    assert_eq!(r, convert(&[3, 4, 5]));
    let (l, r) = vec_split(&v, 5);
    assert_eq!(l, v);
    assert!(r.is_empty());
    assert_eq!(vec_add(&convert(&[1, 2]), &convert(&[10, 20])), convert(&[11, 22]));
    assert_eq!(scalar_product(&convert(&[1, 2, 3]), &s(3)), convert(&[3, 6, 9]));
}

#[test]
fn scalar_arithmetic_wraps_at_the_group_order() {
    let minus_one = s(0).sub(&s(1));
    assert_eq!(minus_one.add(&s(1)), s(0));
    assert_eq!(minus_one.mul(&minus_one), s(1));
    assert_eq!(s(5).neg().add(&s(5)), s(0));
    assert_eq!(s(7).mul(&s(6)), s(42));
    assert_eq!(s(9).sub(&s(4)), s(5));
    let inv = s(3).inverse().unwrap();
    assert_eq!(inv.mul(&s(3)), s(1));
    assert!(s(0).inverse().is_none());
    assert!(s(3).equals(&s(3)));
    assert!(!s(3).equals(&s(4)));
    let mut be = vec![0u8; 31];
    be.push(1);
    assert_eq!(s(1).to_be_bytes(), be);
}

#[test]
fn scalar_from_bytes_reduces_little_endian() {
    let mut b = vec![0u8; 64];
    b[0] = 5;
    b[1] = 1;
    assert_eq!(ringsignature::field::from_le_bytes_mod_order(&b), s(261));
    let all = vec![0xffu8; 64];
    let r = ringsignature::field::from_le_bytes_mod_order(&all);
    assert!(r != Scalar { l0: u64::MAX, l1: u64::MAX, l2: u64::MAX, l3: u64::MAX });
}

#[test]
fn point_operations_agree() {
    let p = random_point();
    let q = random_point();
    assert_eq!(p.add(&p), p.mul(&s(2)));
    assert_eq!(p.add(&q), q.add(&p));
    let m = ringsignature::group::msm(&vec![p, q], &vec![s(2), s(3)]);
    assert_eq!(m, p.mul(&s(2)).add(&q.mul(&s(3))));
    assert!(p.mul(&s(0)).infinity);
    let c = p.to_compressed();
    assert_eq!(c.len(), 33);
    assert_ne!(c, q.to_compressed());
    let _: Point = p;
}

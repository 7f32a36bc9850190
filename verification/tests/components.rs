use dilithium::arith::{decompose, make_hint, power2round, use_hint};
use dilithium::bits::{pack_bits, unpack_bits};
use dilithium::ntt::{intt, ntt, pointwise};
use dilithium::packing::{pack_hint, unpack_hint};
use dilithium::params::Q;
use dilithium::random_bytes;
use dilithium::sample::{challenge, eta_poly};

fn negacyclic_mul(a: &[u32], b: &[u32]) -> Vec<u32> {
    let q = Q as i64;
    let mut c = vec![0i64; 256];
    for i in 0..256 {
        for j in 0..256 {
            let p = (a[i] as i64) * (b[j] as i64) % q;
            if i + j < 256 {
                c[i + j] = (c[i + j] + p) % q;
            } else {
                c[i + j - 256] = (c[i + j - 256] - p + q) % q;
            }
        }
    }
    c.into_iter().map(|x| x as u32).collect()
}

#[test]
fn ntt_known_values() {
    let mut x = vec![0u32; 256];
    x[1] = 1;
    ntt(&mut x);
    assert_eq!(&x[..4], &[1753, 8378664, 6444997, 1935420]);
    let mut a: Vec<u32> = (0..256u64).map(|i| ((i * i + 3) % (Q as u64)) as u32).collect();
    ntt(&mut a);
    assert_eq!(&a[..4], &[7024944, 8223601, 6092153, 611322]);
    assert_eq!(a[255], 3635070);
}

#[test]
fn ntt_of_one_is_all_ones() {
    let mut x = vec![0u32; 256];
    x[0] = 1;
    ntt(&mut x);
    assert!(x.iter().all(|&c| c == 1));
}

#[test]
fn intt_undoes_ntt() {
    let orig: Vec<u32> = (0..256u64).map(|i| ((i * 7919 + 11) % (Q as u64)) as u32).collect();
    let mut x = orig.clone();
    ntt(&mut x);
    assert_ne!(x, orig);
    intt(&mut x);
    assert_eq!(x, orig);
    let mut y = orig.clone();
    intt(&mut y);
    ntt(&mut y);
    assert_eq!(y, orig);
}

#[test]
fn ntt_multiplies_polynomials() {
    let a: Vec<u32> = (0..256u64).map(|i| ((i * 31 + 5) % (Q as u64)) as u32).collect();
    let b: Vec<u32> = (0..256u64).map(|i| ((i * i * 17 + 1) % (Q as u64)) as u32).collect();
    let mut ah = a.clone();
    let mut bh = b.clone();
    ntt(&mut ah);
    ntt(&mut bh);
    let mut c = pointwise(&ah, &bh);
    intt(&mut c);
    assert_eq!(c, negacyclic_mul(&a, &b));
}

#[test]
fn power2round_values() {
    assert_eq!(power2round(Q - 1), (1023, 0));
    assert_eq!(power2round(4096), (0, 4096));
    assert_eq!(power2round(4097), (1, Q - 4095));
    assert_eq!(power2round(0), (0, 0));
}

#[test]
fn decompose_values() {
    assert_eq!(decompose(Q - 1), (0, -1));
    assert_eq!(decompose(95232), (0, 95232));
    assert_eq!(decompose(95233), (1, -95231));
    assert_eq!(decompose(0), (0, 0));
    assert_eq!(decompose(190464 * 43), (43, 0));
}

#[test]
fn hints_recover_high_bits() {
    // w = 2 * gamma2 * 5 + 10, shifted by +100000 so that the high part moves
    let w1 = 5u32;
    let a0 = 100000u32; // low part above gamma2
    assert!(make_hint(a0, w1));
    let v = 190464 * w1 + a0;
    assert_eq!(use_hint(v, true), w1);
    assert_eq!(use_hint(v, false), w1 + 1);
    // a small low part needs no hint
    assert!(!make_hint(10, w1));
    assert_eq!(use_hint(190464 * w1 + 10, false), w1);
    // wrap-around at the top
    assert_eq!(use_hint(Q - 1, true), 43);
}

#[test]
fn bit_packing_roundtrip() {
    let vals: Vec<u32> = (0..256u32).map(|i| (i * 977) % (1 << 13)).collect();
    let mut out = vec![0xEEu8; 3];
    pack_bits(&vals, 13, &mut out);
    assert_eq!(out.len(), 3 + 416);
    assert_eq!(&out[..3], &[0xEE, 0xEE, 0xEE]);
    let back = unpack_bits(&out, 3, 13, 256);
    assert_eq!(back, vals);
}

#[test]
fn bit_packing_layout() {
    let mut vals = vec![0u32; 256];
    vals[0] = 0x3FF;
    vals[1] = 1;
    let mut out = Vec::new();
    pack_bits(&vals, 10, &mut out);
    assert_eq!(out[0], 0xFF);
    assert_eq!(out[1], 0x03 | (1 << 2));
    assert!(out[2..].iter().all(|&b| b == 0));
}

#[test]
fn hint_packing_roundtrip() {
    let mut h = vec![vec![0u32; 256]; 4];
    h[0][3] = 1;
    h[0][200] = 1;
    h[2][0] = 1;
    h[3][255] = 1;
    let y = pack_hint(&h);
    assert_eq!(y.len(), 84);
    assert_eq!(&y[..4], &[3, 200, 0, 255]);
    assert_eq!(&y[80..], &[2, 2, 3, 4]);
    assert_eq!(unpack_hint(&y), Some(h));
}

#[test]
fn malformed_hints_are_rejected() {
    let mut y = vec![0u8; 84];
    y[0] = 5;
    y[1] = 5; // positions must increase
    y[80] = 2;
    y[81] = 2;
    y[82] = 2;
    y[83] = 2;
    assert_eq!(unpack_hint(&y), None);
    let mut z = vec![0u8; 84];
    z[80] = 1;
    z[81] = 0; // counts must not decrease
    assert_eq!(unpack_hint(&z), None);
    let mut p = vec![0u8; 84];
    p[10] = 7; // padding must be zero
    assert_eq!(unpack_hint(&p), None);
    let mut big = vec![0u8; 84];
    big[83] = 81; // counts above OMEGA
    assert_eq!(unpack_hint(&big), None);
}

#[test]
fn challenge_has_tau_signed_ones() {
    let ctilde = [42u8; 32];
    let c = challenge(&ctilde).expect("stream long enough");
    let ones = c.iter().filter(|&&x| x == 1).count();
    let minus = c.iter().filter(|&&x| x == Q - 1).count();
    let zeros = c.iter().filter(|&&x| x == 0).count();
    assert_eq!(ones + minus, 39);
    assert_eq!(zeros, 256 - 39);
}

#[test]
fn secret_polynomials_are_small() {
    let rhoprime = [9u8; 64];
    for nonce in 0..8u16 {
        let p = eta_poly(&rhoprime, nonce).expect("stream long enough");
        assert!(p.iter().all(|&x| x <= 2 || x >= Q - 2));
    }
}

#[test]
fn random_bytes_fills_prefix_only() {
    let mut buf = [0u8; 64];
    assert!(random_bytes(&mut buf, 48));
    assert!(buf[..48].iter().any(|&b| b != 0));
    assert!(buf[48..].iter().all(|&b| b == 0));
}

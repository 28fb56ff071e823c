use imaged::engine::{decrypt, encrypt};
use imaged::hyper::{determinant, frobenius_norm_sq};
use imaged::key::{fnv1a_hash, mix64_exec, params_from_seed};
use imaged::{derive_parameters, ArnoldCat, Channel, CipherError, CipherMethod, EncMethod, HenonMap, HyperChaosSVD, PixelBuffer};

fn arnold() -> CipherMethod {
    CipherMethod::ArnoldCat(ArnoldCat)
}

fn henon() -> CipherMethod {
    CipherMethod::HenonMap(HenonMap)
}

fn hyper() -> CipherMethod {
    CipherMethod::HyperChaosSVD(HyperChaosSVD)
}

fn all_methods() -> Vec<CipherMethod> {
    vec![arnold(), henon(), hyper()]
}

/// A buffer whose samples vary with position and channel.
fn pattern(width: usize, height: usize) -> PixelBuffer {
    let mut data = Vec::new();
    for y in 0..height {
        for x in 0..width {
            let i = y * width + x;
            data.push((i % 256) as u8);
            data.push(((i * 7 + 3) % 256) as u8);
            data.push(((x * 31 + y * 17) % 256) as u8);
            data.push((255 - (i % 256)) as u8);
        }
    }
    PixelBuffer::from_rgba(width, height, &data).unwrap()
}

/// A 4×4 buffer whose red channel is the row-major index of each pixel.
fn indexed_4x4() -> PixelBuffer {
    let mut data = Vec::new();
    for y in 0..4usize {
        for x in 0..4usize {
            data.extend_from_slice(&[(y * 4 + x) as u8, 0, 0, 255]);
        }
    }
    PixelBuffer::from_rgba(4, 4, &data).unwrap()
}

fn assert_same(a: &PixelBuffer, b: &PixelBuffer) {
    assert_eq!(a.width, b.width);
    assert_eq!(a.height, b.height);
    assert_eq!(a.red, b.red);
    assert_eq!(a.green, b.green);
    assert_eq!(a.blue, b.blue);
    assert_eq!(a.alpha, b.alpha);
}

fn round_trip(b: &PixelBuffer, key: &str, m: CipherMethod) {
    let e = encrypt(b, key, m).unwrap();
    let d = decrypt(&e, key, m).unwrap();
    assert_same(&d, b);
}

#[test]
fn round_trip_every_method_square() {
    for m in all_methods() {
        for key in ["test", "alpha", "a much longer passphrase with spaces", "ключ"] {
            for side in [1usize, 2, 3, 4, 7, 16] {
                round_trip(&pattern(side, side), key, m);
            }
        }
    }
}

#[test]
fn round_trip_non_square() {
    for m in [henon(), hyper()] {
        for (w, h) in [(1usize, 5usize), (5, 1), (3, 8), (9, 4), (13, 7)] {
            round_trip(&pattern(w, h), "non-square", m);
        }
    }
}

#[test]
fn encrypt_is_deterministic() {
    let b = pattern(8, 8);
    for m in all_methods() {
        let e1 = encrypt(&b, "repeat", m).unwrap();
        let e2 = encrypt(&b, "repeat", m).unwrap();
        assert_same(&e1, &e2);
    }
}

#[test]
fn encryption_changes_the_image() {
    let b = pattern(8, 8);
    for m in all_methods() {
        let e = encrypt(&b, "change", m).unwrap();
        assert_ne!(e.red, b.red);
    }
}

#[test]
fn distinct_keys_give_distinct_results() {
    let b = pattern(8, 8);
    for m in all_methods() {
        let e1 = encrypt(&b, "first key", m).unwrap();
        let e2 = encrypt(&b, "second key", m).unwrap();
        assert!(e1.red != e2.red || e1.green != e2.green || e1.blue != e2.blue || e1.alpha != e2.alpha);
    }
}

#[test]
fn arnold_keeps_the_multiset_of_values() {
    let b = pattern(9, 9);
    let e = encrypt(&b, "multiset", arnold()).unwrap();
    for (before, after) in [(&b.red, &e.red), (&b.green, &e.green), (&b.blue, &e.blue), (&b.alpha, &e.alpha)] {
        let mut x = before.clone();
        let mut y = after.clone();
        x.sort();
        y.sort();
        assert_eq!(x, y);
    }
}

#[test]
fn diffusion_cancels_for_every_byte_value() {
    let mut data = Vec::new();
    for v in 0..256usize {
        data.extend_from_slice(&[v as u8, (255 - v) as u8, (v * 3 % 256) as u8, v as u8]);
    }
    let b = PixelBuffer::from_rgba(16, 16, &data).unwrap();
    for m in [henon(), hyper()] {
        round_trip(&b, "closure", m);
    }
}

#[test]
fn arnold_all_zero_4x4_stays_zero() {
    let b = PixelBuffer::from_rgba(4, 4, &vec![0u8; 64]).unwrap();
    let e = encrypt(&b, "test", arnold()).unwrap();
    assert_eq!(e.width, 4);
    assert_eq!(e.height, 4);
    assert!(e.red.iter().chain(&e.green).chain(&e.blue).chain(&e.alpha).all(|&v| v == 0));
    let d = decrypt(&e, "test", arnold()).unwrap();
    assert_same(&d, &b);
}

#[test]
fn arnold_indexed_4x4_round_trip() {
    let b = indexed_4x4();
    let e = encrypt(&b, "test", arnold()).unwrap();
    let d = decrypt(&e, "test", arnold()).unwrap();
    for y in 0..4usize {
        for x in 0..4usize {
            assert_eq!(d.get(x, y, Channel::Red), Ok((y * 4 + x) as u8));
        }
    }
}

#[test]
fn hyper_keys_alpha_and_beta_differ_in_every_channel() {
    let b = indexed_4x4();
    let ea = encrypt(&b, "alpha", hyper()).unwrap();
    let eb = encrypt(&b, "beta", hyper()).unwrap();
    assert_ne!(ea.red, eb.red);
    assert_ne!(ea.green, eb.green);
    assert_ne!(ea.blue, eb.blue);
    assert_ne!(ea.alpha, eb.alpha);
}

#[test]
fn empty_key_is_invalid() {
    let b = pattern(4, 4);
    for m in all_methods() {
        assert_eq!(encrypt(&b, "", m).unwrap_err(), CipherError::InvalidKey);
        assert_eq!(decrypt(&b, "", m).unwrap_err(), CipherError::InvalidKey);
    }
    assert_eq!(derive_parameters("").unwrap_err(), CipherError::InvalidKey);
}

#[test]
fn arnold_refuses_non_square() {
    let b = pattern(4, 3);
    assert_eq!(encrypt(&b, "key", arnold()).unwrap_err(), CipherError::UnsupportedDimensions);
    assert_eq!(decrypt(&b, "key", arnold()).unwrap_err(), CipherError::UnsupportedDimensions);
    assert_eq!(ArnoldCat::encrypt(&b, "key").unwrap_err(), CipherError::UnsupportedDimensions);
}

#[test]
fn from_rgba_checks_dimensions() {
    assert_eq!(PixelBuffer::from_rgba(0, 3, &vec![]).unwrap_err(), CipherError::UnsupportedDimensions);
    assert_eq!(PixelBuffer::from_rgba(2, 2, &vec![0u8; 15]).unwrap_err(), CipherError::UnsupportedDimensions);
    assert_eq!(PixelBuffer::from_rgba(2, 2, &vec![0u8; 20]).unwrap_err(), CipherError::UnsupportedDimensions);
    let b = PixelBuffer::from_rgba(2, 1, &vec![1, 2, 3, 4, 5, 6, 7, 8]).unwrap();
    assert_eq!(b.red, vec![1, 5]);
    assert_eq!(b.green, vec![2, 6]);
    assert_eq!(b.blue, vec![3, 7]);
    assert_eq!(b.alpha, vec![4, 8]);
    assert_eq!(b.to_rgba(), vec![1, 2, 3, 4, 5, 6, 7, 8]);
}

#[test]
fn get_and_set_are_bounds_checked() {
    let mut b = pattern(3, 2);
    assert_eq!(b.get(3, 0, Channel::Red), Err(CipherError::OutOfBounds));
    assert_eq!(b.get(0, 2, Channel::Blue), Err(CipherError::OutOfBounds));
    assert_eq!(b.set(5, 5, Channel::Green, 9), Err(CipherError::OutOfBounds));
    assert_eq!(b.set(2, 1, Channel::Green, 9), Ok(()));
    assert_eq!(b.get(2, 1, Channel::Green), Ok(9));
    assert_eq!(b.green[5], 9);
    assert_eq!(b.get(1, 1, Channel::Alpha), Ok(255 - 4));
}

#[test]
fn mix64_known_values() {
    assert_eq!(mix64_exec(0), 0);
    assert_eq!(mix64_exec(1), 0xb456_bcfc_34c2_cb2c);
}

#[test]
fn single_character_keys_get_different_round_counts() {
    let rounds: Vec<usize> = ["a", "b", "c", "d", "e", "f", "g", "h"]
        .iter()
        .map(|k| derive_parameters(k).unwrap().rounds)
        .collect();
    assert!(rounds.iter().any(|&r| r != rounds[0]));
}

#[test]
fn fnv1a_known_values() {
    assert_eq!(fnv1a_hash(b""), 0xcbf2_9ce4_8422_2325);
    assert_eq!(fnv1a_hash(b"a"), 0xaf63_dc4c_8601_ec8c);
    assert_eq!(fnv1a_hash(b"foobar"), 0x8594_4171_f739_67e8);
}

#[test]
fn parameters_follow_the_key_hash() {
    let p = derive_parameters("test").unwrap();
    assert_eq!(p, params_from_seed(mix64_exec(fnv1a_hash(b"test"))));
    let seed = p.seed;
    assert_ne!(seed, fnv1a_hash(b"test"));
    assert_eq!(p.rounds as u64, 1 + (seed >> 16) % 8);
    assert!(p.rounds >= 1 && p.rounds <= 8);
    let q = params_from_seed(0);
    assert_eq!(q.rounds, 1);
    assert_eq!(q.henon_a, 91750);
    assert_eq!(q.henon_b, 19661);
    assert_eq!(q.henon_x0, 0);
    assert_eq!(q.henon_y0, 0);
}

#[test]
fn determinant_and_frobenius_of_known_matrices() {
    let diag = vec![2u8, 0, 0, 0, 0, 3, 0, 0, 0, 0, 4, 0, 0, 0, 0, 5];
    assert_eq!(determinant(&diag), 120);
    assert_eq!(frobenius_norm_sq(&diag), 4 + 9 + 16 + 25);
    let swapped = vec![0u8, 1, 0, 0, 1, 0, 0, 0, 0, 0, 1, 0, 0, 0, 0, 1];
    assert_eq!(determinant(&swapped), -1);
    let singular = vec![1u8, 2, 3, 4, 2, 4, 6, 8, 9, 9, 9, 9, 7, 1, 0, 3];
    assert_eq!(determinant(&singular), 0);
    let full = vec![255u8, 1, 2, 3, 4, 255, 6, 7, 8, 9, 255, 11, 12, 13, 14, 255];
    assert_eq!(determinant(&full), 4_205_851_650);
}

#[test]
fn method_entry_points_agree() {
    let b = pattern(5, 5);
    let via_fn = encrypt(&b, "same", henon()).unwrap();
    let via_method = henon().encrypt(&b, "same").unwrap();
    let via_type = HenonMap::encrypt(&b, "same").unwrap();
    assert_same(&via_fn, &via_method);
    assert_same(&via_fn, &via_type);
    let e = HyperChaosSVD::encrypt(&b, "same").unwrap();
    assert_same(&HyperChaosSVD::decrypt(&e, "same").unwrap(), &b);
    assert_eq!(hyper().name(), "HyperChaosSVD");
}

#[test]
fn batch_without_key_is_refused() {
    let images = vec![pattern(2, 2)];
    assert_eq!(EncMethod::default().encrypt(&images).unwrap_err(), CipherError::InvalidKey);
    assert_eq!(EncMethod::Henon(None).decrypt(&images).unwrap_err(), CipherError::InvalidKey);
}

#[test]
fn batch_round_trip() {
    let images = vec![pattern(3, 3), pattern(6, 6)];
    let m = EncMethod::ArnoldCat(Some(imaged::keyed::ArnoldCat { key: "batch".to_string() }));
    let enc = m.encrypt(&images).unwrap();
    assert_eq!(enc.len(), 2);
    let dec = m.decrypt(&enc).unwrap();
    assert_same(&dec[0], &images[0]);
    assert_same(&dec[1], &images[1]);
    let h = EncMethod::Henon(Some(imaged::Henon { key: "batch".to_string() }));
    let enc = h.encrypt(&images).unwrap();
    assert_same(&h.decrypt(&enc).unwrap()[1], &images[1]);
    assert_eq!(h.name(), "Hénon");
    assert_eq!(EncMethod::default().name(), "ArnoldCat");
}

#[test]
fn batch_stops_at_first_refused_image() {
    let images = vec![pattern(3, 3), pattern(3, 2)];
    let m = EncMethod::ArnoldCat(Some(imaged::keyed::ArnoldCat { key: "batch".to_string() }));
    assert_eq!(m.encrypt(&images).unwrap_err(), CipherError::UnsupportedDimensions);
}

#[test]
fn error_messages() {
    assert_eq!(CipherError::InvalidKey.message(), "invalid key: the key is empty");
    assert_eq!(CipherError::DegenerateMatrix.message(), "key-derived matrix is singular");
}

#[test]
fn map_channel_touches_one_channel() {
    let b = pattern(3, 3);
    let m = b.map_channel(Channel::Blue, |v: u8| v.wrapping_add(1));
    assert_eq!(m.red, b.red);
    assert_eq!(m.green, b.green);
    assert_eq!(m.alpha, b.alpha);
    let expected: Vec<u8> = b.blue.iter().map(|v| v.wrapping_add(1)).collect();
    assert_eq!(m.blue, expected);
}

#[test]
fn shuffle_is_a_permutation_with_its_inverse() {
    let draws: Vec<u64> = vec![17, 3, 99, 1_000_003, 42, 7, 7, 123_456_789];
    let (p, q) = imaged::henon::shuffle(&draws);
    assert_eq!(p.len(), draws.len());
    let mut sorted = p.clone();
    sorted.sort();
    assert_eq!(sorted, (0..draws.len()).collect::<Vec<usize>>());
    for i in 0..p.len() {
        assert_eq!(q[p[i]], i);
    }
    assert_ne!(p, (0..draws.len()).collect::<Vec<usize>>());
}

#[test]
fn hyper_streams_depend_on_their_start() {
    let s1 = imaged::hyper::hyper_stream_exec((1, 2, 3, 4), 32);
    let s2 = imaged::hyper::hyper_stream_exec((1, 2, 3, 5), 32);
    assert_eq!(s1.len(), 32);
    assert_ne!(s1, s2);
    assert_eq!(s1, imaged::hyper::hyper_stream_exec((1, 2, 3, 4), 32));
}

#[test]
fn henon_stream_is_bounded_for_derived_parameters() {
    for key in ["test", "alpha", "beta", "x", "long key with many characters"] {
        let p = derive_parameters(key).unwrap();
        let (mask, draws) = imaged::henon::henon_stream(&p, 1000).unwrap();
        assert_eq!(mask.len(), 1000);
        assert_eq!(draws.len(), 1000);
    }
}

#[test]
fn from_rgb_makes_alpha_opaque() {
    let b = PixelBuffer::from_rgb(2, 1, &vec![1, 2, 3, 4, 5, 6]).unwrap();
    assert_eq!(b.red, vec![1, 4]);
    assert_eq!(b.green, vec![2, 5]);
    assert_eq!(b.blue, vec![3, 6]);
    assert_eq!(b.alpha, vec![255, 255]);
    assert_eq!(PixelBuffer::from_rgb(2, 1, &vec![1, 2, 3, 4]).unwrap_err(), CipherError::UnsupportedDimensions);
    assert_eq!(PixelBuffer::from_rgb(1, 0, &vec![]).unwrap_err(), CipherError::UnsupportedDimensions);
}

use pulsar_proto::Token;

#[test]
fn token_is_random_and_hex_is_32_chars() {
    let mut rng = rand::thread_rng();
    let a = Token::random(&mut rng);
    let b = Token::random(&mut rng);
    assert_ne!(a.0, b.0, "two random tokens collided");
    assert_eq!(a.to_hex().len(), 32);
}

#[test]
fn random_overwrites_all_bytes() {
    let mut rng = rand::thread_rng();
    let mut touched = [false; 16];
    for _ in 0..100 {
        let t = Token::random(&mut rng);
        for i in 0..16 {
            touched[i] = touched[i] || t.0[i] != 0;
        }
    }
    assert_eq!(touched, [true; 16]);
}

fn counting() -> Token {
    Token([0, 1, 9, 10, 15, 16, 0x5f, 0x7f, 0x80, 0x99, 0xa0, 0xab, 0xcd, 0xef, 0xf0, 0xff])
}

#[test]
fn hex_is_lower_case_and_padded() {
    assert_eq!(counting().to_hex(), "0001090a0f105f7f8099a0abcdeff0ff");
    assert_eq!(Token([0; 16]).to_hex(), "00000000000000000000000000000000");
    assert_eq!(Token([255; 16]).to_hex(), "ffffffffffffffffffffffffffffffff");
}

#[test]
fn hex_tells_tokens_apart() {
    for i in 0..16 {
        let mut other = counting();
        other.0[i] ^= 0x10;
        assert_ne!(other.to_hex(), counting().to_hex());
    }
}

#[test]
fn ct_eq_agrees_with_equality() {
    let a = counting();
    assert!(a.ct_eq(&a));
    assert!(a.ct_eq(&counting()));
    for i in 0..16 {
        for bit in 0..8 {
            let mut b = counting();
            b.0[i] ^= 1 << bit;
            assert!(!a.ct_eq(&b));
            assert!(!b.ct_eq(&a));
            assert!(a != b);
        }
    }
    // Differences that cancel out under exclusive or are still differences.
    let mut c = counting();
    c.0[0] ^= 1;
    c.0[1] ^= 1;
    assert!(!a.ct_eq(&c));
}

#[test]
fn debug_form_hides_the_end_of_the_token() {
    assert_eq!(format!("{:?}", counting()), "Token(0001090a…)");
    assert_eq!(counting().debug_text(), "Token(0001090a…)");
    for i in 4..16 {
        let mut other = counting();
        other.0[i] ^= 0xff;
        assert_eq!(format!("{:?}", other), format!("{:?}", counting()));
    }
}

#[test]
fn a_token_holds_the_bytes_it_is_made_from() {
    assert_eq!(Token::from_bytes(counting().0), counting());
    assert_eq!(Token::from_bytes([7; 16]).0, [7; 16]);
}

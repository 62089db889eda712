use haven_server::chance::{draw_match_id, draw_rolls, draw_token, match_id_of, token_of};
use haven_server::double::Double;
use haven_server::simulation::roll_hits;
use rand::rngs::StdRng;
use rand::{Rng, SeedableRng};

#[test]
fn rolls_are_the_generators_next_numbers() {
    let mut ours = StdRng::seed_from_u64(42);
    let mut theirs = StdRng::seed_from_u64(42);
    let rolls = draw_rolls(&mut ours, 20);
    assert_eq!(rolls.len(), 20);
    for roll in rolls {
        assert_eq!(roll, theirs.random::<u64>());
    }
    // Both generators have moved on equally far.
    assert_eq!(ours.random::<u64>(), theirs.random::<u64>());
}

#[test]
fn a_roll_decides_as_a_uniform_fraction_does() {
    for chance in [0.0, 0.0001, 0.035, 0.3, 0.5, 0.999, 1.0] {
        let mut ours = StdRng::seed_from_u64(7);
        let mut theirs = StdRng::seed_from_u64(7);
        let bits = Double {
            bits: f64::to_bits(chance),
        };
        for roll in draw_rolls(&mut ours, 2000) {
            assert_eq!(roll_hits(bits, roll), theirs.random::<f64>() < chance);
        }
    }
}

#[test]
fn certain_and_impossible_chances() {
    let one = Double {
        bits: 1.0f64.to_bits(),
    };
    let zero = Double {
        bits: 0.0f64.to_bits(),
    };
    for roll in [0, 1, 2047, 2048, u64::MAX / 2, u64::MAX] {
        assert!(roll_hits(one, roll));
        assert!(!roll_hits(zero, roll));
    }
    // A lower roll is never worse.
    let half = Double {
        bits: 0.5f64.to_bits(),
    };
    assert!(roll_hits(half, (1 << 63) - 1));
    assert!(!roll_hits(half, 1 << 63));
}

#[test]
fn identifiers_are_written_in_hexadecimal() {
    let n: u128 = 0x67e5504410b1426f9247bb680e5fe0c8;
    assert_eq!(match_id_of(n), "67e5504410b1");
    assert_eq!(token_of(n), "67e55044-10b1-426f-9247-bb680e5fe0c8");
    assert_eq!(match_id_of(0), "000000000000");
    assert_eq!(token_of(0), "00000000-0000-0000-0000-000000000000");
    assert_eq!(match_id_of(u128::MAX), "ffffffffffff");
    assert_eq!(token_of(0xabcdef), "00000000-0000-0000-0000-000000abcdef");
}

#[test]
fn drawn_identifiers_have_their_form_and_differ() {
    let a = draw_match_id();
    let b = draw_match_id();
    for id in [&a, &b] {
        assert_eq!(id.len(), 12);
        assert!(id.chars().all(|c| matches!(c, '0'..='9' | 'a'..='f')));
    }
    assert_ne!(a, b);

    let s = draw_token();
    let t = draw_token();
    for token in [&s, &t] {
        let c: Vec<char> = token.chars().collect();
        assert_eq!(c.len(), 36);
        for (i, x) in c.iter().enumerate() {
            if [8, 13, 18, 23].contains(&i) {
                assert_eq!(*x, '-');
            } else {
                assert!(matches!(x, '0'..='9' | 'a'..='f'));
            }
        }
        assert_eq!(c[14], '4');
        assert!(matches!(c[19], '8' | '9' | 'a' | 'b'));
    }
    assert_ne!(s, t);
}

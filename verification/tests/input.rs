use ff::PrimeField;
use pasta_curves::Fp;
use zk_psi_verifier::{
    encode_value, hash_string_to_field, hash_to_field, is_whitespace, parse_set, parse_values,
    FieldElement, PsiCircuit, SetValue,
};

fn number(n: u64) -> SetValue {
    SetValue::Integer(n)
}

fn text(t: &str) -> SetValue {
    SetValue::Text(t.to_string())
}

/// What the standard library makes of the same text.
fn by_std(input: &str) -> Vec<SetValue> {
    let mut values = Vec::new();
    for piece in input.split(',') {
        let token = piece.trim();
        if token.is_empty() {
            continue;
        }
        match token.parse::<u64>() {
            Ok(n) => values.push(SetValue::Integer(n)),
            Err(_) => values.push(SetValue::Text(token.to_string())),
        }
    }
    values
}

#[test]
fn parse_values_of_numbers() {
    assert_eq!(parse_values("1,2,3"), vec![number(1), number(2), number(3)]);
}

#[test]
fn parse_values_of_names() {
    assert_eq!(parse_values("alice,bob,carol"), vec![text("alice"), text("bob"), text("carol")]);
}

#[test]
fn parse_values_trims_and_drops_empty_values() {
    assert_eq!(parse_values(" 1 ,, 2 ,\t,bob , "), vec![number(1), number(2), text("bob")]);
    assert_eq!(parse_values(""), vec![]);
    assert_eq!(parse_values(",,,"), vec![]);
    assert_eq!(parse_values("   "), vec![]);
    assert_eq!(parse_values(","), vec![]);
}

#[test]
fn parse_values_keeps_inner_white_space() {
    assert_eq!(parse_values(" a b , c\td "), vec![text("a b"), text("c\td")]);
    assert_eq!(parse_values("1 2"), vec![text("1 2")]);
}

#[test]
fn parse_values_reads_a_sign_and_leading_zeros() {
    assert_eq!(parse_values("+5"), vec![number(5)]);
    assert_eq!(parse_values("007"), vec![number(7)]);
    assert_eq!(parse_values("+0"), vec![number(0)]);
    assert_eq!(parse_values("-5"), vec![text("-5")]);
    assert_eq!(parse_values("+"), vec![text("+")]);
    assert_eq!(parse_values("++5"), vec![text("++5")]);
    assert_eq!(parse_values("5+"), vec![text("5+")]);
}

#[test]
fn parse_values_at_the_largest_number() {
    assert_eq!(parse_values("18446744073709551615"), vec![number(u64::MAX)]);
    assert_eq!(parse_values("18446744073709551616"), vec![text("18446744073709551616")]);
    assert_eq!(parse_values("18446744073709551620"), vec![text("18446744073709551620")]);
    assert_eq!(parse_values("99999999999999999999"), vec![text("99999999999999999999")]);
    assert_eq!(parse_values("000018446744073709551615"), vec![number(u64::MAX)]);
    assert_eq!(parse_values("184467440737095516150"), vec![text("184467440737095516150")]);
}

#[test]
fn parse_values_takes_other_digits_as_text() {
    assert_eq!(parse_values("1.5"), vec![text("1.5")]);
    assert_eq!(parse_values("0x10"), vec![text("0x10")]);
    assert_eq!(parse_values("1_000"), vec![text("1_000")]);
    assert_eq!(parse_values("\u{661}\u{662}"), vec![text("\u{661}\u{662}")]);
    assert_eq!(parse_values("12a"), vec![text("12a")]);
}

#[test]
fn parse_values_trims_unicode_white_space() {
    assert_eq!(parse_values("\u{3000}x\u{a0}"), vec![text("x")]);
    assert_eq!(parse_values("\u{2003}7\u{205f}"), vec![number(7)]);
    assert_eq!(parse_values("\u{85}\u{1680}\u{2028}\u{2029}\u{202f}"), vec![]);
    // A zero-width space is no white space.
    assert_eq!(parse_values("\u{200b}7"), vec![text("\u{200b}7")]);
}

#[test]
fn parse_values_agrees_with_the_standard_library() {
    let inputs = [
        "",
        "1,2,3",
        " 1 , 2 , 3 ",
        "alice, bob ,carol",
        ",a,,b,",
        "+1,-1,01,1e3",
        "18446744073709551615,18446744073709551616",
        "\u{3000}x\u{a0},\u{feff}y",
        "na\u{ef}ve, caf\u{e9} ,\u{65e5}\u{672c}",
        "a,b,c,d,e,f,g,h,i,j,k,l,m,n,o,p,q,r,s,t,u,v,w,x,y,z",
        "\t\n\u{b}\u{c}\r 42 \t\n\u{b}\u{c}\r",
        "\u{1c}5",
        "1,,2,,,3",
        "+",
        " + ",
    ];
    for input in inputs {
        assert_eq!(parse_values(input), by_std(input));
    }
}

#[test]
fn is_whitespace_agrees_with_the_standard_library() {
    let mut code = 0u32;
    while code <= 0x11_0000 {
        if let Some(c) = char::from_u32(code) {
            assert_eq!(is_whitespace(c), c.is_whitespace());
        }
        code += 1;
    }
}

#[test]
fn encode_value_hashes_by_kind() {
    assert_eq!(encode_value(&number(42)), hash_to_field(42));
    assert_eq!(encode_value(&text("alice")), hash_string_to_field("alice"));
    assert_ne!(encode_value(&text("42")), encode_value(&number(42)));
}

#[test]
fn parse_set_encodes_each_value() {
    let set = parse_set("1, 2,alice ,");
    assert_eq!(set, vec![hash_to_field(1), hash_to_field(2), hash_string_to_field("alice")]);
    assert!(parse_set("").is_empty());
}

#[test]
fn parse_set_reads_007_as_seven() {
    assert_eq!(parse_set("007"), vec![hash_to_field(7)]);
    assert_ne!(parse_set("007"), vec![hash_string_to_field("007")]);
}

#[test]
fn parsed_sets_are_counted() {
    let set_a = parse_set("1,2,3,4");
    let set_b = parse_set("2, 3, 5, 6");
    let circuit = PsiCircuit::new(set_a, set_b, 0).unwrap();
    assert_eq!(circuit.compute_intersection_size(), 2);

    let set_a = parse_set("alice,bob,carol");
    let set_b = parse_set("carol,dave,alice");
    let circuit = PsiCircuit::new(set_a, set_b, 0).unwrap();
    assert_eq!(circuit.compute_intersection_size(), 2);
}

#[test]
fn low_u64_reads_back_a_count() {
    for value in [0u64, 1, 7, 255, 256, 1024, 0x0123_4567_89ab_cdef, u64::MAX] {
        assert_eq!(FieldElement::from_u64(value).low_u64(), value);
    }
}

#[test]
fn low_u64_drops_the_high_bytes() {
    let mut repr = [0u8; 32];
    for (index, byte) in repr.iter_mut().enumerate() {
        *byte = index as u8 + 1;
    }
    repr[31] = 0;
    let element = FieldElement::from_repr(repr).unwrap();
    assert_eq!(element.low_u64(), 0x0807_0605_0403_0201);
    // -1 is p - 1, whose low eight bytes are those of the modulus less one.
    let largest = FieldElement::from_repr((-Fp::one()).to_repr()).unwrap();
    assert_eq!(largest.low_u64(), 0x992d_30ed_0000_0000);
}

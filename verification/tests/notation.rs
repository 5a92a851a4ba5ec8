use pants_gen::charset::{Charset, CharsetParseError};
use pants_gen::choice::{Choice, ChoiceParseError, Choices};
use pants_gen::interval::{Interval, IntervalParseError};
use pants_gen::password::{PasswordParseError, PasswordSpec};
use pants_gen::text::{parse_number, parse_signed_number, render_number};

fn chars(s: &str) -> Vec<char> {
    s.chars().collect()
}

#[test]
fn numbers_are_read_from_digits() {
    assert_eq!(parse_number(&chars("0")), Some(0));
    assert_eq!(parse_number(&chars("007")), Some(7));
    assert_eq!(parse_number(&chars("1234567890")), Some(1234567890));
    assert_eq!(parse_number(&chars(&usize::MAX.to_string())), Some(usize::MAX));
}

#[test]
fn numbers_reject_what_is_no_count() {
    assert_eq!(parse_number(&chars("")), None);
    assert_eq!(parse_number(&chars("+5")), None);
    assert_eq!(parse_number(&chars("-5")), None);
    assert_eq!(parse_number(&chars("5 ")), None);
    assert_eq!(parse_number(&chars("1a")), None);
    assert_eq!(parse_number(&chars("\u{0663}")), None);
    assert_eq!(parse_number(&chars("99999999999999999999999999")), None);
    let mut too_big = usize::MAX.to_string();
    too_big.push('0');
    assert_eq!(parse_number(&chars(&too_big)), None);
}

#[test]
fn signed_numbers_take_one_plus() {
    assert_eq!(parse_signed_number(&chars("+32")), Some(32));
    assert_eq!(parse_signed_number(&chars("32")), Some(32));
    assert_eq!(parse_signed_number(&chars("+")), None);
    assert_eq!(parse_signed_number(&chars("++1")), None);
    assert_eq!(parse_signed_number(&chars("")), None);
}

#[test]
fn numbers_are_written_in_decimal() {
    assert_eq!(render_number(0), chars("0"));
    assert_eq!(render_number(9), chars("9"));
    assert_eq!(render_number(10), chars("10"));
    assert_eq!(render_number(4096), chars("4096"));
    assert_eq!(render_number(usize::MAX), chars(&usize::MAX.to_string()));
}

#[test]
fn interval_constructors_set_the_bounds() {
    let a = Interval::new(2, 7).unwrap();
    assert_eq!((a.min(), a.max()), (2, 7));
    assert!(Interval::new(7, 2).is_none());
    let b = Interval::new(3, 3).unwrap();
    assert_eq!((b.min(), b.max()), (3, 3));
    let c = Interval::at_least(4);
    assert_eq!((c.min(), c.max()), (4, usize::MAX));
    let d = Interval::at_most(4);
    assert_eq!((d.min(), d.max()), (0, 4));
    let e = Interval::exactly(4);
    assert_eq!((e.min(), e.max()), (4, 4));
    let f = Interval::safe(9, 1);
    assert_eq!((f.min(), f.max()), (1, 9));
    let g = Interval::safe(1, 9);
    assert_eq!((g.min(), g.max()), (1, 9));
}

#[test]
fn interval_forms_are_read() {
    assert_eq!("5".parse::<Interval>().unwrap(), Interval::exactly(5));
    assert_eq!("5+".parse::<Interval>().unwrap(), Interval::at_least(5));
    assert_eq!("5-".parse::<Interval>().unwrap(), Interval::at_most(5));
    assert_eq!("2-7".parse::<Interval>().unwrap(), Interval::new(2, 7).unwrap());
    assert_eq!("3-3".parse::<Interval>().unwrap(), Interval::exactly(3));
    assert_eq!("  12+ \n".parse::<Interval>().unwrap(), Interval::at_least(12));
    assert_eq!("\u{a0}4\u{3000}".parse::<Interval>().unwrap(), Interval::exactly(4));
}

#[test]
fn inverted_interval_names_both_bounds() {
    match "1-0".parse::<Interval>() {
        Err(IntervalParseError::BadBounds(a, b)) => assert_eq!((a, b), (1, 0)),
        other => panic!("unexpected result {:?}", other),
    }
}

#[test]
fn improper_intervals_carry_the_trimmed_text() {
    let cases = [
        "", "+", "-", "-5", "5--", "1-2+", "5+6", "a", "1 2", "1-2-3", "5+-", "½",
        "99999999999999999999999999", "1-99999999999999999999999999",
    ];
    for case in cases {
        let padded = format!(" {} ", case);
        match padded.parse::<Interval>() {
            Err(IntervalParseError::ImproperFormat(s)) => assert_eq!(s, case),
            other => panic!("unexpected result {:?} for {:?}", other, case),
        }
    }
}

#[test]
fn intervals_are_written_in_the_shortest_form() {
    assert_eq!(Interval::exactly(5).to_string(), "5");
    assert_eq!(Interval::at_most(5).to_string(), "5-");
    assert_eq!(Interval::at_least(5).to_string(), "5+");
    assert_eq!(Interval::new(2, 7).unwrap().to_string(), "2-7");
    assert_eq!(Interval::at_most(0).to_string(), "0");
    assert_eq!(Interval::at_least(0).to_string(), format!("{}-", usize::MAX));
    assert_eq!(Interval::exactly(usize::MAX).to_string(), usize::MAX.to_string());
}

#[test]
fn intervals_read_back() {
    let all = [
        Interval::exactly(0),
        Interval::exactly(17),
        Interval::at_least(0),
        Interval::at_least(3),
        Interval::at_most(3),
        Interval::new(1, 2).unwrap(),
        Interval::new(10, 1000).unwrap(),
        Interval::exactly(usize::MAX),
    ];
    for interval in all {
        assert_eq!(interval.to_string().parse::<Interval>().unwrap(), interval);
    }
}

#[test]
fn class_tokens_are_read() {
    assert_eq!(":upper:".parse::<Charset>().unwrap(), Charset::Upper);
    assert_eq!(":lower:".parse::<Charset>().unwrap(), Charset::Lower);
    assert_eq!(":number:".parse::<Charset>().unwrap(), Charset::Number);
    assert_eq!(":symbol:".parse::<Charset>().unwrap(), Charset::Symbol);
}

#[test]
fn other_text_is_a_custom_class() {
    assert_eq!("abc".parse::<Charset>().unwrap(), Charset::Custom(vec!['a', 'b', 'c']));
    assert_eq!("aab".parse::<Charset>().unwrap(), Charset::Custom(vec!['a', 'a', 'b']));
    assert_eq!(" :".parse::<Charset>().unwrap(), Charset::Custom(vec![' ', ':']));
    assert_eq!(":a".parse::<Charset>().unwrap(), Charset::Custom(vec![':', 'a']));
    assert_eq!("a:".parse::<Charset>().unwrap(), Charset::Custom(vec!['a', ':']));
    assert_eq!(":é".parse::<Charset>().unwrap(), Charset::Custom(vec![':', 'é']));
    assert_eq!("upper".parse::<Charset>().unwrap(), Charset::Custom(chars("upper")));
}

#[test]
fn empty_class_is_refused() {
    assert!(matches!("".parse::<Charset>(), Err(CharsetParseError::NoCharset)));
}

#[test]
fn unknown_token_is_refused() {
    for case in [":typo:", ":", "::", ":Upper:", ":upper::", ":é:"] {
        match case.parse::<Charset>() {
            Err(CharsetParseError::UnrecognizedPattern(s)) => assert_eq!(s, case),
            other => panic!("unexpected result {:?} for {:?}", other, case),
        }
    }
}

#[test]
fn classes_hold_their_characters() {
    assert_eq!(Charset::Upper.to_charset(), chars("ABCDEFGHIJKLMNOPQRSTUVWXYZ"));
    assert_eq!(Charset::Lower.to_charset(), chars("abcdefghijklmnopqrstuvwxyz"));
    assert_eq!(Charset::Number.to_charset(), chars("123456789"));
    assert_eq!(Charset::Symbol.to_charset(), chars("!@%^&*-_=+:;,.?~"));
    assert_eq!(Charset::Custom(chars("zza")).to_charset(), chars("zza"));
    assert_eq!(Charset::Upper.to_charset().len(), 26);
    assert_eq!(Charset::Number.to_charset().len(), 9);
    assert!(!Charset::Number.to_charset().contains(&'0'));
    assert!(!Charset::Upper.is_empty());
    assert!(Charset::Custom(vec![]).is_empty());
    assert!(!Charset::Custom(vec!['x']).is_empty());
}

#[test]
fn classes_are_written_as_token_or_characters() {
    assert_eq!(Charset::Upper.to_string(), ":upper:");
    assert_eq!(Charset::Lower.to_string(), ":lower:");
    assert_eq!(Charset::Number.to_string(), ":number:");
    assert_eq!(Charset::Symbol.to_string(), ":symbol:");
    assert_eq!(Charset::Custom(chars("a|b")).to_string(), "a|b");
}

#[test]
fn classes_compare_by_content() {
    assert_eq!(Charset::Custom(chars("ab")), Charset::Custom(chars("ab")));
    assert_ne!(Charset::Custom(chars("ab")), Charset::Custom(chars("ba")));
    assert_ne!(Charset::Custom(chars("ab")), Charset::Custom(chars("abc")));
    assert_ne!(Charset::Custom(chars(":upper:")), Charset::Upper);
    assert_ne!(Charset::Upper, Charset::Lower);
    assert_eq!(Charset::Symbol.clone(), Charset::Symbol);
    assert_eq!(Charset::Custom(chars("xy")).clone(), Charset::Custom(chars("xy")));
}

#[test]
fn class_builders_make_constraints() {
    let a = Charset::Upper.at_least(2);
    assert_eq!((a.min(), a.max(), a.chars()), (2, usize::MAX, &Charset::Upper));
    let b = Charset::Lower.at_most(2);
    assert_eq!((b.min(), b.max(), b.chars()), (0, 2, &Charset::Lower));
    let c = Charset::Number.exactly(2);
    assert_eq!((c.min(), c.max(), c.chars()), (2, 2, &Charset::Number));
    let d = Charset::Symbol.between(2, 4).unwrap();
    assert_eq!((d.min(), d.max(), d.chars()), (2, 4, &Charset::Symbol));
    assert!(Charset::Symbol.between(4, 2).is_none());
    let e = Charset::Custom(chars("ab")).from_interval(Interval::new(1, 3).unwrap());
    assert_eq!((e.min(), e.max()), (1, 3));
    assert_eq!(e.chars(), &Charset::Custom(chars("ab")));
}

#[test]
fn constraint_constructors_set_bounds_and_class() {
    let a = Choice::new(1, 3, Charset::Upper).unwrap();
    assert_eq!((a.min(), a.max(), a.chars()), (1, 3, &Charset::Upper));
    assert!(Choice::new(3, 1, Charset::Upper).is_none());
    let b = Choice::from_interval(Interval::at_least(4), Charset::Lower);
    assert_eq!((b.min(), b.max(), b.chars()), (4, usize::MAX, &Charset::Lower));
    let c = Choice::exactly(6, Charset::Number);
    assert_eq!((c.min(), c.max()), (6, 6));
    let d = Choice::at_least(6, Charset::Number);
    assert_eq!((d.min(), d.max()), (6, usize::MAX));
    let e = Choice::at_most(6, Charset::Number);
    assert_eq!((e.min(), e.max()), (0, 6));
    let f = e.clone();
    assert_eq!((f.min(), f.max(), f.chars()), (0, 6, &Charset::Number));
}

#[test]
fn constraints_compare_by_class_alone() {
    assert_eq!(Choice::exactly(1, Charset::Upper), Choice::at_least(9, Charset::Upper));
    assert_ne!(Choice::exactly(1, Charset::Upper), Choice::exactly(1, Charset::Lower));
}

#[test]
fn constraints_are_read() {
    let a = "1+|:upper:".parse::<Choice>().unwrap();
    assert_eq!((a.min(), a.max(), a.chars()), (1, usize::MAX, &Charset::Upper));
    let b = " 2-4 |ab".parse::<Choice>().unwrap();
    assert_eq!((b.min(), b.max()), (2, 4));
    assert_eq!(b.chars(), &Charset::Custom(chars("ab")));
    let c = "3||x|".parse::<Choice>().unwrap();
    assert_eq!((c.min(), c.max()), (3, 3));
    assert_eq!(c.chars(), &Charset::Custom(chars("|x|")));
    let d = "1| a ".parse::<Choice>().unwrap();
    assert_eq!(d.chars(), &Charset::Custom(chars(" a ")));
}

#[test]
fn constraints_without_bar_are_refused() {
    for case in ["", "abc", "1+:upper:", "32"] {
        match case.parse::<Choice>() {
            Err(ChoiceParseError::BadFormat(s)) => assert_eq!(s, case),
            other => panic!("unexpected result {:?} for {:?}", other, case),
        }
    }
}

#[test]
fn constraint_errors_come_from_their_parts() {
    assert!(matches!(
        "x|:upper:".parse::<Choice>(),
        Err(ChoiceParseError::BadInterval(IntervalParseError::ImproperFormat(_)))
    ));
    assert!(matches!(
        "2-1|:upper:".parse::<Choice>(),
        Err(ChoiceParseError::BadInterval(IntervalParseError::BadBounds(2, 1)))
    ));
    assert!(matches!(
        "1|".parse::<Choice>(),
        Err(ChoiceParseError::Charset(CharsetParseError::NoCharset))
    ));
    assert!(matches!(
        "1|:nope:".parse::<Choice>(),
        Err(ChoiceParseError::Charset(CharsetParseError::UnrecognizedPattern(_)))
    ));
    assert!(matches!(
        "x|".parse::<Choice>(),
        Err(ChoiceParseError::BadInterval(IntervalParseError::ImproperFormat(_)))
    ));
}

#[test]
fn constraints_are_written_as_interval_bar_class() {
    assert_eq!(Charset::Upper.exactly(10).to_string(), "10|:upper:");
    assert_eq!(Charset::Lower.at_least(1).to_string(), "1+|:lower:");
    assert_eq!(Charset::Number.at_most(3).to_string(), "3-|:number:");
    assert_eq!(Charset::Symbol.between(1, 2).unwrap().to_string(), "1-2|:symbol:");
    assert_eq!(Charset::Custom(chars("&^")).exactly(1).to_string(), "1|&^");
}

#[test]
fn sets_of_constraints_are_written_after_slashes() {
    let mut set = Choices::new();
    assert_eq!(set.to_string(), "");
    set.push(Charset::Upper.at_least(1));
    set.push(Charset::Custom(chars("xy")).exactly(2));
    assert_eq!(set.to_string(), "//1+|:upper://2|xy");
    assert_eq!(Choices::default().to_string(), "");
}

#[test]
fn default_spec_is_written_in_full() {
    assert_eq!(
        PasswordSpec::default().to_string(),
        "32//1+|:upper://1+|:lower://1+|:number://1+|:symbol:"
    );
    assert_eq!(PasswordSpec::new().to_string(), "32//");
    assert_eq!(PasswordSpec::new().length(0).to_string(), "0//");
}

#[test]
fn specs_are_read() {
    let spec = "16//3+|:upper://1-2|:lower://3-|:number://1|:symbol:"
        .parse::<PasswordSpec>()
        .unwrap();
    assert_eq!(spec.len(), 16);
    let entries = spec.choices().as_slice();
    assert_eq!(entries.len(), 4);
    assert_eq!((entries[0].min(), entries[0].max()), (3, usize::MAX));
    assert_eq!(entries[0].chars(), &Charset::Upper);
    assert_eq!((entries[1].min(), entries[1].max()), (1, 2));
    assert_eq!(entries[1].chars(), &Charset::Lower);
    assert_eq!((entries[2].min(), entries[2].max()), (0, 3));
    assert_eq!(entries[2].chars(), &Charset::Number);
    assert_eq!((entries[3].min(), entries[3].max()), (1, 1));
    assert_eq!(entries[3].chars(), &Charset::Symbol);
    assert_eq!(
        spec.to_string(),
        "16//3+|:upper://1-2|:lower://3-|:number://1|:symbol:"
    );
}

#[test]
fn specs_may_end_in_slashes_or_start_with_blanks() {
    let plain = "8//2|ab".parse::<PasswordSpec>().unwrap();
    let closed = "8//2|ab//".parse::<PasswordSpec>().unwrap();
    let padded = " \t8//2|ab".parse::<PasswordSpec>().unwrap();
    let signed = "+8//2|ab".parse::<PasswordSpec>().unwrap();
    for spec in [plain, closed, padded, signed] {
        assert_eq!(spec.to_string(), "8//2|ab");
    }
    let bare = "8//".parse::<PasswordSpec>().unwrap();
    assert_eq!(bare.len(), 8);
    assert_eq!(bare.choices().len(), 0);
}

#[test]
fn a_slash_may_end_custom_characters() {
    let spec = "9//1|ab///2|/".parse::<PasswordSpec>().unwrap();
    let entries = spec.choices().as_slice();
    assert_eq!(entries.len(), 2);
    assert_eq!(entries[0].chars(), &Charset::Custom(chars("ab/")));
    assert_eq!(entries[1].chars(), &Charset::Custom(chars("/")));
    assert_eq!(spec.to_string(), "9//1|ab///2|/");
    assert_eq!(spec.to_string().parse::<PasswordSpec>().unwrap().to_string(), "9//1|ab///2|/");
}

#[test]
fn later_groups_replace_earlier_ones_on_the_same_class() {
    let spec = "9//1|:upper://2|ab//3+|:upper:".parse::<PasswordSpec>().unwrap();
    assert_eq!(spec.to_string(), "9//3+|:upper://2|ab");
}

#[test]
fn specs_without_separator_are_refused() {
    for case in ["", "32", "twenty", "1+|:upper:", "32/1|a", "   "] {
        assert!(
            matches!(case.parse::<PasswordSpec>(), Err(PasswordParseError::ImproperFormat)),
            "{:?}",
            case
        );
    }
}

#[test]
fn bad_lengths_carry_their_text() {
    for (case, text) in [
        ("twenty//1+|:upper:", "twenty"),
        ("//1+|:upper:", ""),
        ("32 //1|a", "32 "),
        ("-1//1|a", "-1"),
        ("3/2//1|a", "3/2"),
        ("99999999999999999999999999//", "99999999999999999999999999"),
    ] {
        match case.parse::<PasswordSpec>() {
            Err(PasswordParseError::InvalidLength(s)) => assert_eq!(s, text),
            other => panic!("unexpected result {:?} for {:?}", other, case),
        }
    }
}

#[test]
fn bad_groups_are_refused() {
    assert!(matches!(
        "32//1-0|:upper:".parse::<PasswordSpec>(),
        Err(PasswordParseError::BadChoice(ChoiceParseError::BadInterval(
            IntervalParseError::BadBounds(1, 0)
        )))
    ));
    assert!(matches!(
        "32//1+|:not_real:".parse::<PasswordSpec>(),
        Err(PasswordParseError::BadChoice(ChoiceParseError::Charset(
            CharsetParseError::UnrecognizedPattern(_)
        )))
    ));
    assert!(matches!(
        "32////".parse::<PasswordSpec>(),
        Err(PasswordParseError::BadChoice(ChoiceParseError::BadFormat(_)))
    ));
    assert!(matches!(
        "32///1|a".parse::<PasswordSpec>(),
        Err(PasswordParseError::BadChoice(ChoiceParseError::BadInterval(_)))
    ));
    assert!(matches!(
        "32//1|a//b".parse::<PasswordSpec>(),
        Err(PasswordParseError::BadChoice(ChoiceParseError::BadFormat(_)))
    ));
    assert!(matches!(
        "32//1|".parse::<PasswordSpec>(),
        Err(PasswordParseError::BadChoice(ChoiceParseError::Charset(
            CharsetParseError::NoCharset
        )))
    ));
}

#[test]
fn the_first_bad_group_decides() {
    match "32//x|a//1|".parse::<PasswordSpec>() {
        Err(PasswordParseError::BadChoice(ChoiceParseError::BadInterval(
            IntervalParseError::ImproperFormat(s),
        ))) => assert_eq!(s, "x"),
        other => panic!("unexpected result {:?}", other),
    }
}

#[test]
fn specs_read_back() {
    let specs = [
        PasswordSpec::new(),
        PasswordSpec::default(),
        PasswordSpec::new().length(0),
        PasswordSpec::default().length(usize::MAX),
        PasswordSpec::new()
            .length(16)
            .upper_at_least(1)
            .lower(Interval::new(1, 10).unwrap())
            .with(Charset::Number.exactly(3))
            .custom(vec!['&', '^'], Interval::exactly(1)),
        PasswordSpec::new().custom_at_most(chars("a/b|c:"), 4).symbol_exactly(0),
        PasswordSpec::new().custom_exactly(chars("/"), 1).custom_at_least(chars(" x "), 2),
    ];
    for spec in specs {
        let text = spec.to_string();
        let back = text.parse::<PasswordSpec>().unwrap();
        assert_eq!(back.to_string(), text);
        assert_eq!(back.len(), spec.len());
        let (a, b) = (back.choices().as_slice(), spec.choices().as_slice());
        assert_eq!(a.len(), b.len());
        for i in 0..a.len() {
            assert_eq!((a[i].min(), a[i].max(), a[i].chars()), (b[i].min(), b[i].max(), b[i].chars()));
        }
        assert_eq!(back, spec);
    }
}

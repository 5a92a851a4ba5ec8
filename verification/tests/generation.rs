use pants_gen::charset::Charset;
use pants_gen::choice::{Choice, Choices};
use pants_gen::cli::CliArgs;
use pants_gen::interval::Interval;
use pants_gen::password::PasswordSpec;

fn count_in(password: &str, class: &Charset) -> usize {
    let pool = class.to_charset();
    password.chars().filter(|c| pool.contains(c)).count()
}

fn meets(spec: &PasswordSpec, password: &str) {
    assert_eq!(password.chars().count(), spec.len());
    for choice in spec.choices().as_slice() {
        let n = count_in(password, choice.chars());
        assert!(n >= choice.min(), "{} of {:?} in {:?}", n, choice, password);
        assert!(n <= choice.max(), "{} of {:?} in {:?}", n, choice, password);
    }
    for c in password.chars() {
        assert!(spec
            .choices()
            .as_slice()
            .iter()
            .any(|choice| choice.max() > 0 && choice.chars().to_charset().contains(&c)));
    }
}

#[test]
fn default_spec_gives_every_class() {
    let spec = PasswordSpec::default();
    assert!(spec.check());
    assert!(spec.is_drawable());
    for _ in 0..50 {
        let password = spec.generate().unwrap();
        assert_eq!(password.chars().count(), 32);
        assert!(password.chars().any(|c| c.is_ascii_uppercase()));
        assert!(password.chars().any(|c| c.is_ascii_lowercase()));
        assert!(password.chars().any(|c| c.is_ascii_digit()));
        assert!(password.chars().any(|c| "!@%^&*-_=+:;,.?~".contains(c)));
        meets(&spec, &password);
    }
}

#[test]
fn a_single_open_class_fills_the_length() {
    let spec = PasswordSpec::new().length(10).upper_at_least(1);
    for _ in 0..20 {
        let password = spec.generate().unwrap();
        assert_eq!(password.len(), 10);
        assert!(password.chars().all(|c| c.is_ascii_uppercase()));
    }
}

#[test]
fn exact_and_capped_counts_hold() {
    let exact = PasswordSpec::default().upper_exactly(5);
    let capped = PasswordSpec::default().lower_at_most(5);
    let banned = PasswordSpec::default().symbol_exactly(0);
    for _ in 0..50 {
        let a = exact.generate().unwrap();
        assert_eq!(a.chars().filter(|c| c.is_ascii_uppercase()).count(), 5);
        meets(&exact, &a);
        let b = capped.generate().unwrap();
        assert!(b.chars().filter(|c| c.is_ascii_lowercase()).count() <= 5);
        meets(&capped, &b);
        let c = banned.generate().unwrap();
        assert_eq!(count_in(&c, &Charset::Symbol), 0);
        meets(&banned, &c);
    }
}

#[test]
fn every_outcome_meets_its_constraints() {
    let specs = [
        PasswordSpec::new().length(0),
        PasswordSpec::new().length(0).upper_at_most(3),
        PasswordSpec::new().length(6).upper_exactly(2).lower_exactly(4),
        PasswordSpec::new().length(7).upper(Interval::new(1, 3).unwrap()).number_at_least(2),
        PasswordSpec::new().length(12).custom_exactly(vec!['x'], 12),
        PasswordSpec::new()
            .length(16)
            .upper_at_least(1)
            .lower(Interval::new(1, 10).unwrap())
            .with(Charset::Number.exactly(3))
            .custom(vec!['\u{e9}', '\u{4e2d}'], Interval::exactly(1)),
        PasswordSpec::new().length(5).custom_at_most(vec![], 0).lower_at_least(0),
        PasswordSpec::default().length(4),
        PasswordSpec::default().length(200),
    ];
    for spec in specs {
        assert!(spec.check(), "{:?}", spec);
        assert!(spec.is_drawable(), "{:?}", spec);
        for _ in 0..20 {
            let password = spec.generate().unwrap();
            meets(&spec, &password);
        }
    }
}

#[test]
fn contradictory_specs_give_nothing() {
    let specs = [
        PasswordSpec::default().length(3),
        PasswordSpec::new().length(10).upper_exactly(5),
        PasswordSpec::new().length(1),
        PasswordSpec::new().length(4).upper_at_most(1).lower_at_most(2),
        PasswordSpec::new().length(4).upper_at_least(3).lower_at_least(2),
        PasswordSpec::new().length(usize::MAX - 1).upper_at_least(usize::MAX),
        PasswordSpec::default().symbol_at_least(33),
    ];
    for spec in specs {
        assert!(!spec.check(), "{:?}", spec);
        assert_eq!(spec.generate(), None, "{:?}", spec);
    }
}

#[test]
fn feasibility_sums_saturate() {
    let open = PasswordSpec::new().length(usize::MAX).upper_at_least(1).lower_at_least(1);
    assert!(open.check());
    let heavy = PasswordSpec::new()
        .length(usize::MAX)
        .upper_at_least(usize::MAX)
        .lower_at_least(usize::MAX);
    assert!(heavy.check());
    let short = PasswordSpec::new().length(5).upper_at_most(2).lower_at_most(2);
    assert!(!short.check());
    let fits = PasswordSpec::new().length(4).upper_at_most(2).lower_at_most(2);
    assert!(fits.check());
    let empty = PasswordSpec::new().length(0);
    assert!(empty.check());
}

#[test]
fn empty_classes_are_told_apart() {
    assert!(!PasswordSpec::new().length(1).custom_at_least(vec![], 1).is_drawable());
    assert!(!PasswordSpec::default().custom_at_most(vec![], 2).is_drawable());
    assert!(PasswordSpec::default().custom_exactly(vec![], 0).is_drawable());
    assert!(PasswordSpec::new().is_drawable());
}

#[test]
fn the_characters_are_shuffled() {
    let spec = PasswordSpec::new().length(64).upper_exactly(32).lower_exactly(32);
    let password = spec.generate().unwrap();
    let sorted_first = password.chars().take(32).all(|c| c.is_ascii_uppercase());
    assert!(!sorted_first, "{:?}", password);
}

#[test]
fn draws_vary() {
    let spec = PasswordSpec::default().length(64);
    let first = spec.generate().unwrap();
    let mut differs = false;
    for _ in 0..10 {
        differs = differs || spec.generate().unwrap() != first;
    }
    assert!(differs);
}

#[test]
fn a_draw_spends_the_budget() {
    let mut choice = Choice::new(2, 3, Charset::Number).unwrap();
    assert!(choice.active() && choice.required());
    let a = choice.next().unwrap();
    assert!("123456789".contains(a));
    assert_eq!((choice.min(), choice.max()), (1, 2));
    choice.next().unwrap();
    assert_eq!((choice.min(), choice.max()), (0, 1));
    assert!(choice.active() && !choice.required());
    choice.next().unwrap();
    assert_eq!((choice.min(), choice.max()), (0, 0));
    assert!(!choice.active());
    assert_eq!(choice.next(), None);
    assert_eq!((choice.min(), choice.max()), (0, 0));
}

#[test]
fn a_draw_from_no_characters_gives_nothing() {
    let mut choice = Choice::new(1, 2, Charset::Custom(vec![])).unwrap();
    assert_eq!(choice.next(), None);
    assert_eq!((choice.min(), choice.max()), (0, 1));
    let mut other = Choice::new(2, 5, Charset::Custom(vec![])).unwrap();
    assert_eq!(other.get_required(), vec![]);
    assert_eq!((other.min(), other.max()), (0, 3));
}

#[test]
fn required_draws_settle_the_budget() {
    let mut choice = Choice::new(4, 9, Charset::Custom(vec!['a', 'b'])).unwrap();
    let drawn = choice.get_required();
    assert_eq!(drawn.len(), 4);
    assert!(drawn.iter().all(|c| *c == 'a' || *c == 'b'));
    assert_eq!((choice.min(), choice.max()), (0, 5));
    assert_eq!(choice.get_required(), vec![]);
    let mut open = Choice::at_least(3, Charset::Upper);
    assert_eq!(open.get_required().len(), 3);
    assert_eq!((open.min(), open.max()), (0, usize::MAX - 3));
    let mut none = Choice::at_most(3, Charset::Upper);
    assert_eq!(none.get_required(), vec![]);
    assert_eq!((none.min(), none.max()), (0, 3));
}

#[test]
fn the_second_constraint_on_a_class_wins() {
    let spec = PasswordSpec::new().upper_at_least(1).lower_exactly(2).upper_at_most(7);
    let entries = spec.choices().as_slice();
    assert_eq!(entries.len(), 2);
    assert_eq!(entries[0].chars(), &Charset::Upper);
    assert_eq!((entries[0].min(), entries[0].max()), (0, 7));
    assert_eq!(entries[1].chars(), &Charset::Lower);
    let once = PasswordSpec::new().lower_exactly(2).upper_at_most(7);
    assert_eq!(spec.to_string(), "32//7-|:upper://2|:lower:");
    assert_eq!(once.to_string(), "32//2|:lower://7-|:upper:");
    assert_eq!(spec, once);
}

#[test]
fn custom_classes_are_kept_apart_by_content() {
    let spec = PasswordSpec::new()
        .custom_exactly(vec!['a', 'b'], 1)
        .custom_exactly(vec!['b', 'a'], 2)
        .custom_exactly(vec!['a', 'b'], 3);
    let entries = spec.choices().as_slice();
    assert_eq!(entries.len(), 2);
    assert_eq!((entries[0].min(), entries[0].max()), (3, 3));
    assert_eq!((entries[1].min(), entries[1].max()), (2, 2));
}

#[test]
fn sets_are_built_one_constraint_after_the_other() {
    let set = Choices::from(vec![
        Charset::Upper.exactly(1),
        Charset::Lower.exactly(2),
        Charset::Upper.exactly(3),
    ]);
    assert_eq!(set.len(), 2);
    assert_eq!(set.to_string(), "//3|:upper://2|:lower:");
    assert_eq!(set.find(&Charset::Upper), 0);
    assert_eq!(set.find(&Charset::Lower), 1);
    assert_eq!(set.find(&Charset::Symbol), 2);
    let copy = set.clone();
    assert_eq!(copy.to_string(), set.to_string());
    let all = set.into_vec();
    assert_eq!(all.len(), 2);
    assert_eq!((all[0].min(), all[1].min()), (3, 2));
}

#[test]
fn specs_compare_by_length_and_classes() {
    let a = PasswordSpec::new().upper_at_least(1).lower_at_least(1);
    let b = PasswordSpec::new().lower_at_most(9).upper_exactly(2);
    assert_eq!(a, b);
    assert_ne!(a, PasswordSpec::new().upper_at_least(1));
    assert_ne!(a, PasswordSpec::new().upper_at_least(1).number_at_least(1));
    assert_ne!(a.clone().length(5), a);
    assert_eq!(a.clone(), a);
    assert_eq!(a.len(), 32);
}

#[test]
fn builders_set_each_class() {
    let iv = Interval::new(2, 3).unwrap();
    let spec = PasswordSpec::new()
        .length(40)
        .upper(iv)
        .lower(iv)
        .number(iv)
        .symbol(iv)
        .custom(vec!['#'], iv);
    assert_eq!(
        spec.to_string(),
        "40//2-3|:upper://2-3|:lower://2-3|:number://2-3|:symbol://2-3|#"
    );
    let spec = PasswordSpec::new()
        .upper_at_least(1)
        .lower_at_most(2)
        .number_exactly(3)
        .symbol_at_least(4)
        .custom_at_most(vec!['#'], 5)
        .custom_at_least(vec!['$'], 6)
        .custom_exactly(vec!['('], 7);
    assert_eq!(
        spec.to_string(),
        "32//1+|:upper://2-|:lower://3|:number://4+|:symbol://5-|#//6+|$//7|("
    );
    let spec = PasswordSpec::new()
        .upper_at_most(1)
        .upper_exactly(2)
        .lower_at_least(3)
        .lower_exactly(4)
        .number_at_least(5)
        .number_at_most(6)
        .symbol_at_most(7)
        .symbol_exactly(8);
    assert_eq!(spec.to_string(), "32//2|:upper://4|:lower://6-|:number://8|:symbol:");
}

#[test]
fn arguments_change_the_spec_in_order() {
    let args = CliArgs {
        spec: PasswordSpec::default(),
        length: Some(12),
        upper: Some(Interval::exactly(2)),
        lower: None,
        number: Some(Interval::at_most(3)),
        symbol: Some(Interval::exactly(0)),
        custom: vec!["1+|$_".parse::<Choice>().unwrap(), Charset::Lower.exactly(4)],
    };
    let spec = args.resolve();
    assert_eq!(
        spec.to_string(),
        "12//2|:upper://4|:lower://3-|:number://0|:symbol://1+|$_"
    );
}

#[test]
fn arguments_without_changes_keep_the_spec() {
    let args = CliArgs {
        spec: "9//9|ab".parse::<PasswordSpec>().unwrap(),
        length: None,
        upper: None,
        lower: None,
        number: None,
        symbol: None,
        custom: vec![],
    };
    let password = args.execute().unwrap();
    assert_eq!(password.len(), 9);
    assert!(password.chars().all(|c| c == 'a' || c == 'b'));
}

#[test]
fn arguments_may_ask_too_much() {
    let args = CliArgs {
        spec: PasswordSpec::default(),
        length: Some(2),
        upper: None,
        lower: None,
        number: None,
        symbol: None,
        custom: vec![],
    };
    assert_eq!(args.execute(), None);
    let args = CliArgs {
        spec: PasswordSpec::default(),
        length: Some(16),
        upper: None,
        lower: None,
        number: None,
        symbol: Some(Interval::exactly(0)),
        custom: vec![Charset::Custom(vec!['-', '_']).at_least(1)],
    };
    let password = args.execute().unwrap();
    assert_eq!(password.len(), 16);
    assert!(password.contains('-') || password.contains('_'));
    assert!(!password.contains('!'));
}

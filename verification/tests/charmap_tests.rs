use accentd::charmap::{builtin_locale, keycode_to_base, keycode_to_digit, resolve_accents, LocaleMap};

// --- only a, e, i, o, u, n, c, s, y are accent-eligible ---

#[test]
fn accent_eligible_keys_map_to_correct_base() {
    // evdev keycodes: A=30, C=46, E=18, I=23, N=49, O=24, S=31, U=22, Y=21
    assert_eq!(keycode_to_base(30), Some('a'));
    assert_eq!(keycode_to_base(46), Some('c'));
    assert_eq!(keycode_to_base(18), Some('e'));
    assert_eq!(keycode_to_base(23), Some('i'));
    assert_eq!(keycode_to_base(49), Some('n'));
    assert_eq!(keycode_to_base(24), Some('o'));
    assert_eq!(keycode_to_base(31), Some('s'));
    assert_eq!(keycode_to_base(22), Some('u'));
    assert_eq!(keycode_to_base(21), Some('y'));
}

#[test]
fn non_accent_keys_return_none() {
    // b=48, d=32, f=33, g=34, h=35, j=36, k=37, l=38
    for code in [48, 32, 33, 34, 35, 36, 37, 38, 0, 255] {
        assert_eq!(
            keycode_to_base(code),
            None,
            "keycode {} should not be accent-eligible",
            code
        );
    }
}

// --- digit keys 1-9 for accent selection ---

#[test]
fn digit_keys_map_to_1_through_9() {
    for (code, expected) in (2..=10).zip(1u8..=9) {
        assert_eq!(keycode_to_digit(code), Some(expected));
    }
}

#[test]
fn non_digit_keys_return_none() {
    assert_eq!(keycode_to_digit(0), None);
    assert_eq!(keycode_to_digit(1), None); // KEY_ESC
    assert_eq!(keycode_to_digit(11), None); // KEY_0
    assert_eq!(keycode_to_digit(30), None); // KEY_A
}

// --- Italian locale has specific accent orderings ---

#[test]
fn italian_locale_has_all_expected_keys() {
    let it = builtin_locale("it");
    assert!(it.contains_key('a'));
    assert!(it.contains_key('e'));
    assert!(it.contains_key('i'));
    assert!(it.contains_key('o'));
    assert!(it.contains_key('u'));
    assert!(it.contains_key('n'));
    assert!(it.contains_key('c'));
}

#[test]
fn italian_e_has_grave_first() {
    let it = builtin_locale("it");
    let e_accents = it.get('e').unwrap();
    assert_eq!(e_accents[0], "è");
    assert_eq!(e_accents[1], "é");
    assert_eq!(e_accents.len(), 4);
}

#[test]
fn italian_a_has_5_variants() {
    let it = builtin_locale("it");
    assert_eq!(it.get('a').unwrap().len(), 5);
    assert_eq!(it.get('a').unwrap()[0], "à");
}

#[test]
fn italian_n_has_only_tilde() {
    let it = builtin_locale("it");
    assert_eq!(it.get('n').unwrap(), &vec!["ñ".to_string()]);
}

#[test]
fn italian_c_has_only_cedilla() {
    let it = builtin_locale("it");
    assert_eq!(it.get('c').unwrap(), &vec!["ç".to_string()]);
}

// --- German has s → ß ---

#[test]
fn german_s_has_eszett() {
    let de = builtin_locale("de");
    assert_eq!(de.get('s').unwrap(), &vec!["ß".to_string()]);
}

#[test]
fn german_has_umlauts_first() {
    let de = builtin_locale("de");
    assert_eq!(de.get('a').unwrap()[0], "ä");
    assert_eq!(de.get('o').unwrap()[0], "ö");
    assert_eq!(de.get('u').unwrap()[0], "ü");
}

// --- all 5 locales exist ---

#[test]
fn all_five_locales_exist_and_are_non_empty() {
    for name in ["it", "es", "fr", "de", "pt"] {
        let locale = builtin_locale(name);
        assert!(!locale.is_empty(), "locale '{}' should not be empty", name);
    }
}

#[test]
fn unknown_locale_returns_empty() {
    assert!(builtin_locale("zz").is_empty());
    assert!(builtin_locale("").is_empty());
}

// --- shift → uppercase variants ---

#[test]
fn resolve_accents_returns_lowercase_when_no_shift() {
    let it = builtin_locale("it");
    let accents = resolve_accents(&it, 'e', false).unwrap();
    assert_eq!(accents[0], "è");
    assert_eq!(accents[1], "é");
}

#[test]
fn resolve_accents_returns_uppercase_when_shift() {
    let it = builtin_locale("it");
    let accents = resolve_accents(&it, 'e', true).unwrap();
    assert_eq!(accents[0], "È");
    assert_eq!(accents[1], "É");
}

#[test]
fn resolve_accents_returns_none_for_unknown_base() {
    let it = builtin_locale("it");
    assert!(resolve_accents(&it, 'z', false).is_none());
    assert!(resolve_accents(&it, 'b', false).is_none());
}

// --- Spanish has ñ and ý ---

#[test]
fn spanish_has_n_tilde_and_y_accents() {
    let es = builtin_locale("es");
    assert_eq!(es.get('n').unwrap(), &vec!["ñ".to_string()]);
    assert!(es.contains_key('y'));
    assert_eq!(es.get('y').unwrap()[0], "ý");
}

// --- French has æ, œ, ç ---

#[test]
fn french_has_ligatures_and_cedilla() {
    let fr = builtin_locale("fr");
    assert!(fr.get('a').unwrap().contains(&"æ".to_string()));
    assert!(fr.get('o').unwrap().contains(&"œ".to_string()));
    assert_eq!(fr.get('c').unwrap(), &vec!["ç".to_string()]);
}

// --- Portuguese prioritizes tilde for a, o ---

#[test]
fn portuguese_a_starts_with_tilde() {
    let pt = builtin_locale("pt");
    assert_eq!(pt.get('a').unwrap()[0], "ã");
}

#[test]
fn portuguese_o_starts_with_tilde() {
    let pt = builtin_locale("pt");
    assert_eq!(pt.get('o').unwrap()[0], "õ");
}

// --- uppercase base letters fold to the same entry ---

#[test]
fn resolve_accents_folds_uppercase_base() {
    let it = builtin_locale("it");
    let accents = resolve_accents(&it, 'E', false).unwrap();
    assert_eq!(accents[0], "è");
}

// --- building a map from entries enforces the invariant ---

#[test]
fn from_entries_accepts_a_valid_table() {
    let entries = vec![('e', vec!["è".to_string(), "é".to_string()])];
    let m = LocaleMap::from_entries(entries).unwrap();
    assert_eq!(m.get('e').unwrap()[0], "è");
}

#[test]
fn from_entries_rejects_bad_tables() {
    // ineligible base letter
    assert!(LocaleMap::from_entries(vec![('z', vec!["ž".to_string()])]).is_none());
    // empty accent list
    assert!(LocaleMap::from_entries(vec![('e', vec![])]).is_none());
    // more than nine accents
    let many: Vec<String> = (0..10).map(|i| format!("x{}", i)).collect();
    assert!(LocaleMap::from_entries(vec![('e', many)]).is_none());
    // repeated base letter
    assert!(LocaleMap::from_entries(vec![
        ('e', vec!["è".to_string()]),
        ('e', vec!["é".to_string()]),
    ])
    .is_none());
}

use bcdf::text::normalize;

#[test]
fn short_inputs_only_fold() {
    // at most eight bytes: only composition and lowercasing apply
    assert_eq!("hey, ily", normalize("hey, ily"));
    assert_eq!("ab!", normalize("AB!"));
    assert_eq!("desir\u{e9}e", normalize("Desir\u{e9}e"));
}

#[test]
fn long_inputs_are_canonicalized() {
    // one trailing sentence terminator is stripped
    assert_eq!("hey there, ily", normalize("Hey there, ily!"));
    // brackets are removed, connector tokens rewritten
    assert_eq!(
        "you can't negotiate with zombies debut album",
        normalize("You Can't Negotiate With Zombies [Debut Album]")
    );
    assert_eq!("alpha and beta", normalize("Alpha & Beta"));
    assert_eq!("b feat a", normalize("B feat. A"));
    // stand-alone dashes are dropped, whitespace and `/` split segments
    assert_eq!("diskord onward! to nowhere", normalize("DISKORD - Onward! To Nowhere"));
    assert_eq!("both sides", normalize("both/sides"));
    // typographic punctuation maps to ASCII
    assert_eq!(
        "for toshiko, ii. to touch-",
        normalize("for Toshiko, ii. to touch\u{2014}")
    );
}

#[test]
fn normalize_idempotent_cases() {
    let cases = [
        "Hey there, ily!",
        "DISKORD - Onward! To Nowhere",
        "You Can't Negotiate With Zombies [Debut Album]",
        "[NTV001] NATIVO VA VOL 1.",
        "A & B feat. C",
        "desir\u{e9}e",
        "short",
    ];
    for s in cases {
        let once = normalize(s);
        let twice = normalize(&once);
        assert_eq!(once, twice, "re-normalizing '{s}' changed the result");
    }
}

#[test]
fn composition_applies_before_comparison() {
    // a decomposed input (e + combining acute) composes to the single
    // accented character before anything else happens
    assert_eq!("desir\u{e9}e", normalize("Desire\u{301}e"));
}

#[test]
fn number_rendering() {
    let d = bcdf::numfmt::dec_chars(1234567890);
    let s: String = d.into_iter().collect();
    assert_eq!("1234567890", s);
    let two: String = bcdf::numfmt::dec2_chars(7).into_iter().collect();
    assert_eq!("07", two);
    let wide: String = bcdf::numfmt::dec2_chars(123).into_iter().collect();
    assert_eq!("123", wide);
    let four: String = bcdf::numfmt::dec4_chars(42).into_iter().collect();
    assert_eq!("0042", four);
}

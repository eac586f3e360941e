use wfinfo::text::{
    contains, ends_with, from_chars, join_text, normalize_string, remove_spaces, same_text,
    to_chars,
};
use wfinfo::trigger::announces_rewards;

#[test]
fn normalize_keeps_only_letters() {
    assert_eq!(normalize_string("Octavia Prime\nBlueprint 2x!"), "OctaviaPrimeBlueprintx");
    assert_eq!(normalize_string(""), "");
    assert_eq!(normalize_string("1234 \t-"), "");
}

#[test]
fn normalize_is_idempotent() {
    let once = normalize_string("Akst1letto Pr-ime Rec\u{e9}iver");
    assert_eq!(normalize_string(&once), once);
    assert_eq!(once, "AkstlettoPrimeReciver");
}

#[test]
fn texts_are_taken_apart_and_put_together() {
    let name = to_chars("Octavia Prime Systems");
    assert_eq!(name.len(), 21);
    assert_eq!(from_chars(&name), "Octavia Prime Systems");
    assert_eq!(to_chars("h\u{e9}!"), vec!['h', '\u{e9}', '!']);
    assert!(ends_with(&name, &to_chars("Systems")));
    assert!(ends_with(&name, &to_chars("")));
    assert!(!ends_with(&name, &to_chars("systems")));
    assert!(!ends_with(&to_chars("ems"), &to_chars("Systems")));
    assert_eq!(from_chars(&remove_spaces(&name)), "OctaviaPrimeSystems");
    assert_eq!(
        from_chars(&join_text(&name, &to_chars(" Blueprint"))),
        "Octavia Prime Systems Blueprint"
    );
    assert!(same_text(&name, &to_chars("Octavia Prime Systems")));
    assert!(!same_text(&name, &to_chars("Octavia Prime System")));
    assert!(contains(&name, &to_chars("Prime")));
    assert!(contains(&name, &to_chars("")));
    assert!(contains(&name, &name));
    assert!(!contains(&name, &to_chars("Primes")));
    assert!(!contains(&to_chars("ab"), &to_chars("abc")));
    assert!(contains(&to_chars("aab"), &to_chars("ab")));
}

#[test]
fn the_log_announces_rewards() {
    assert!(announces_rewards("1234.5 Sys [Info]: Pause countdown done"));
    assert!(announces_rewards("Script [Info]: Got rewards"));
    assert!(announces_rewards(
        "1.0 Sys [Info]: Created /Lotus/Interface/ProjectionRewardChoice.swf"
    ));
    assert!(!announces_rewards("Script [Info]: Got reward"));
    assert!(!announces_rewards("pause countdown done"));
    assert!(!announces_rewards(""));
}

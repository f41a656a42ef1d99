use rls_vfs_ipc::flags::dedup_flags;

#[test]
fn test_dedup_flags() {
    // These should all be preserved.
    assert!(dedup_flags("") == "");
    assert!(dedup_flags("-Zfoo") == " -Zfoo");
    assert!(dedup_flags("-Z foo") == " -Zfoo");
    assert!(dedup_flags("-Zfoo bar") == " -Zfoo bar");
    let result = dedup_flags("-Z foo foo bar");
    assert!(result.matches("foo").count() == 2);
    assert!(result.matches("bar").count() == 1);

    // These should dedup.
    assert!(dedup_flags("-Zfoo -Zfoo") == " -Zfoo");
    assert!(dedup_flags("-Zfoo -Zfoo -Zfoo") == " -Zfoo");
    let result = dedup_flags("-Zfoo -Zfoo -Zbar");
    assert!(result.matches("foo").count() == 1);
    assert!(result.matches("bar").count() == 1);
    let result = dedup_flags("-Zfoo -Zbar -Zfoo -Zbar -Zbar");
    assert!(result.matches("foo").count() == 1);
    assert!(result.matches("bar").count() == 1);
    assert!(dedup_flags("-Zfoo -Z foo") == " -Zfoo");

    assert!(dedup_flags("--error-format=json --error-format=json") == " --error-format=json");
    assert!(dedup_flags("--error-format=foo --error-format=json") == " --error-format=json");
}

#[test]
fn dedup_flags_keeps_naked_words_in_order() {
    assert!(dedup_flags("alpha beta") == " alpha beta");
    // A word after a flag is that flag's value; the later value wins.
    assert!(dedup_flags("-Zfoo alpha -Zfoo beta") == " -Zfoo beta");
}

#[test]
fn dedup_flags_sorts_flags_by_key() {
    assert!(dedup_flags("-Zzeta -Zalpha") == " -Zalpha -Zzeta");
}

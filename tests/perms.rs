use helios::perms::{author_perms, AuthorPerms, THE_BIG_RAT};

#[test]
fn authors_are_ranked() {
    assert_eq!(author_perms(true, THE_BIG_RAT, true), AuthorPerms::Ignore);
    assert_eq!(author_perms(false, THE_BIG_RAT, false), AuthorPerms::Obey);
    assert_eq!(author_perms(false, 42, true), AuthorPerms::Obey);
    assert_eq!(author_perms(false, 42, false), AuthorPerms::Answer);
}

#[test]
fn ranks_gate_replies_and_commands() {
    assert!(!AuthorPerms::Ignore.should_reply());
    assert!(AuthorPerms::Answer.should_reply());
    assert!(AuthorPerms::Obey.should_reply());
    assert!(!AuthorPerms::Ignore.should_obey());
    assert!(!AuthorPerms::Answer.should_obey());
    assert!(AuthorPerms::Obey.should_obey());
}

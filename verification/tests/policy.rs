use housekeeper::policy::{link_plan, DestState, LinkAction};

#[test]
fn vacant_destination_is_linked() {
    assert_eq!(link_plan(DestState::Vacant, false), LinkAction::CreateLink);
    assert_eq!(link_plan(DestState::Vacant, true), LinkAction::CreateLink);
}

#[test]
fn directory_is_never_touched() {
    assert_eq!(link_plan(DestState::Directory, false), LinkAction::SkipDirectory);
    assert_eq!(link_plan(DestState::Directory, true), LinkAction::SkipDirectory);
}

#[test]
fn plain_file_is_protected_without_force() {
    assert_eq!(link_plan(DestState::PlainFile, false), LinkAction::SkipProtectedFile);
}

#[test]
fn plain_file_is_replaced_under_force() {
    assert_eq!(link_plan(DestState::PlainFile, true), LinkAction::ReplaceLink);
}

#[test]
fn symlink_is_replaced_regardless_of_force() {
    assert_eq!(link_plan(DestState::SymlinkPresent, false), LinkAction::ReplaceLink);
    assert_eq!(link_plan(DestState::SymlinkPresent, true), LinkAction::ReplaceLink);
}

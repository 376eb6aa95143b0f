use housekeeper::{DestState, Dotfile, InstallPlan, Installer, SkipReason};

fn installer(force: bool) -> Installer {
    Installer { home_directory: String::from("/home/u"), force }
}

fn vimrc() -> Dotfile {
    Dotfile::from_path(String::from("dotfiles/vimrc"))
}

#[test]
fn vacant_destination_gets_a_fresh_link() {
    let p = vimrc().install_plan(&installer(false), DestState::Vacant);
    assert_eq!(
        p,
        InstallPlan::Link { destination: String::from("/home/u/.vimrc"), remove_existing: false }
    );
}

#[test]
fn existing_directory_is_skipped() {
    let p = vimrc().install_plan(&installer(false), DestState::Directory);
    assert_eq!(p, InstallPlan::Skip(SkipReason::Directory));
    let p = vimrc().install_plan(&installer(true), DestState::Directory);
    assert_eq!(p, InstallPlan::Skip(SkipReason::Directory));
}

#[test]
fn existing_file_is_kept_without_force() {
    let p = vimrc().install_plan(&installer(false), DestState::PlainFile);
    assert_eq!(p, InstallPlan::Skip(SkipReason::ProtectedFile));
}

#[test]
fn existing_file_is_replaced_under_force() {
    let p = vimrc().install_plan(&installer(true), DestState::PlainFile);
    assert_eq!(
        p,
        InstallPlan::Link { destination: String::from("/home/u/.vimrc"), remove_existing: true }
    );
}

#[test]
fn existing_symlink_is_replaced_with_or_without_force() {
    for force in [false, true] {
        let p = vimrc().install_plan(&installer(force), DestState::SymlinkPresent);
        assert_eq!(
            p,
            InstallPlan::Link {
                destination: String::from("/home/u/.vimrc"),
                remove_existing: true
            }
        );
    }
}

#[test]
fn a_second_identical_run_replaces_its_own_link_in_place() {
    let inst = installer(false);
    let first = vimrc().install_plan(&inst, DestState::Vacant);
    let again = vimrc().install_plan(&inst, DestState::SymlinkPresent);
    match (first, again) {
        (
            InstallPlan::Link { destination: d1, .. },
            InstallPlan::Link { destination: d2, remove_existing },
        ) => {
            assert_eq!(d1, d2);
            assert!(remove_existing);
        }
        _ => panic!("both runs must link"),
    }
}

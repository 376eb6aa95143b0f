use housekeeper::Dotfile;

#[test]
fn from_path_keeps_the_path() {
    let d = Dotfile::from_path(String::from("dotfiles/vimrc"));
    assert_eq!(d.path, "dotfiles/vimrc");
}

#[test]
fn name_is_the_final_component() {
    let d = Dotfile::from_path(String::from("dotfiles/vimrc"));
    assert_eq!(d.name(), "vimrc");
}

#[test]
fn name_of_a_bare_path_is_the_path() {
    let d = Dotfile::from_path(String::from("vimrc"));
    assert_eq!(d.name(), "vimrc");
}

#[test]
fn name_of_a_nested_path() {
    let d = Dotfile::from_path(String::from("/home/u/dotfiles/gitconfig"));
    assert_eq!(d.name(), "gitconfig");
}

#[test]
fn name_keeps_an_existing_leading_dot() {
    let d = Dotfile::from_path(String::from("dotfiles/.hidden"));
    assert_eq!(d.name(), ".hidden");
}

#[test]
fn dotname_prefixes_a_dot() {
    let d = Dotfile::from_path(String::from("dotfiles/vimrc"));
    assert_eq!(d.dotname(), ".vimrc");
}

#[test]
fn simple_names_are_recognised() {
    assert!(Dotfile::from_path(String::from("dotfiles/vimrc")).has_simple_name());
    assert!(Dotfile::from_path(String::from("vimrc")).has_simple_name());
    assert!(Dotfile::from_path(String::from("a/.bashrc")).has_simple_name());
}

#[test]
fn directory_style_paths_are_rejected() {
    assert!(!Dotfile::from_path(String::from("")).has_simple_name());
    assert!(!Dotfile::from_path(String::from("dotfiles/")).has_simple_name());
    assert!(!Dotfile::from_path(String::from("dotfiles/.")).has_simple_name());
    assert!(!Dotfile::from_path(String::from("dotfiles/..")).has_simple_name());
    assert!(!Dotfile::from_path(String::from(".")).has_simple_name());
    assert!(!Dotfile::from_path(String::from("..")).has_simple_name());
}

#[test]
fn destination_joins_home_and_dotname() {
    let d = Dotfile::from_path(String::from("dotfiles/vimrc"));
    assert_eq!(d.destination("/home/u"), "/home/u/.vimrc");
}

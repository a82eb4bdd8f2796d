use fftemplates::extensions::{double_dollars, relocate_extensions};

#[test]
fn every_dollar_is_doubled() {
    assert_eq!(double_dollars("a$b"), "a$$b");
    assert_eq!(double_dollars("$"), "$$");
    assert_eq!(double_dollars("$$"), "$$$$");
    assert_eq!(double_dollars("/tmp/$HOME/$1/"), "/tmp/$$HOME/$$1/");
}

#[test]
fn text_without_dollars_is_kept() {
    assert_eq!(double_dollars(""), "");
    assert_eq!(double_dollars("/tmp/profile/"), "/tmp/profile/");
    assert_eq!(double_dollars("/tmp/pr\u{f6}fil \u{1f600}/"), "/tmp/pr\u{f6}fil \u{1f600}/");
}

#[test]
fn extension_path_is_moved_below_the_folder() {
    let content = "{\"id\":\"a@b\",\"path\":\"/home/u/.mozilla/firefox/x.default/extensions/a@b.xpi\",\"v\":1}";
    let expected = "{\"id\":\"a@b\",\"path\":\"/tmp/copy/1700/extensions/a@b.xpi\",\"v\":1}";
    assert_eq!(relocate_extensions(content, "/tmp/copy/1700/"), Ok(expected.to_string()));
}

#[test]
fn every_extension_path_is_moved() {
    let content = "[{\"path\":\"/old/extensions/one.xpi\"},{\"path\":\"/old/extensions/two.xpi\"}]";
    let expected = "[{\"path\":\"/new/extensions/one.xpi\"},{\"path\":\"/new/extensions/two.xpi\"}]";
    assert_eq!(relocate_extensions(content, "/new/"), Ok(expected.to_string()));
}

#[test]
fn the_folder_is_taken_as_it_is() {
    let content = "{\"path\":\"/old/extensions/one.xpi\"}";
    assert_eq!(
        relocate_extensions(content, "/tmp/$1${2}$$/"),
        Ok("{\"path\":\"/tmp/$1${2}$$/extensions/one.xpi\"}".to_string())
    );
    assert_eq!(
        relocate_extensions(content, ""),
        Ok("{\"path\":\"extensions/one.xpi\"}".to_string())
    );
    assert_eq!(
        relocate_extensions(content, "/no/separator"),
        Ok("{\"path\":\"/no/separatorextensions/one.xpi\"}".to_string())
    );
}

#[test]
fn other_entries_are_untouched() {
    let builtin = "{\"path\":\"/usr/lib/firefox/browser/features/pictureinpicture.xpi\"}";
    assert_eq!(relocate_extensions(builtin, "/new/"), Ok(builtin.to_string()));
    let folder = "{\"path\":\"/old/extensions/unpacked\"}";
    assert_eq!(relocate_extensions(folder, "/new/"), Ok(folder.to_string()));
    let other_key = "{\"rootURI\":\"/old/extensions/one.xpi\"}";
    assert_eq!(relocate_extensions(other_key, "/new/"), Ok(other_key.to_string()));
    assert_eq!(relocate_extensions("", "/new/"), Ok(String::new()));
}

#[test]
fn the_last_extensions_folder_of_a_path_counts() {
    let content = "{\"path\":\"/old/extensions/nested/extensions/one.xpi\"}";
    assert_eq!(
        relocate_extensions(content, "/new/"),
        Ok("{\"path\":\"/new/extensions/one.xpi\"}".to_string())
    );
}

//! The document and its file: saving, saving elsewhere, watching and reloading.

use std::collections::HashMap;

use leaf_core::doc::Doc;
use leaf_core::modes::{DiskState, View};
use leaf_core::session::DiskRead;
use leaf_core::visual::VisualMap;

const VIEWS: [(View, &str); 2] = [(View::Source, "source"), (View::Wysiwyg, "wysiwyg")];

/// A file system of the tests' own.
struct Disk {
    files: HashMap<String, Vec<u8>>,
}

impl Disk {
    fn new() -> Disk {
        Disk { files: HashMap::new() }
    }

    fn open(&mut self, view: View, name: &str, body: &str) -> Doc {
        let file = format!("{name}.md");
        let path = format!("/docs/{file}");
        self.write(&path, body);
        let mut d = Doc::opened(body.as_bytes().to_vec(), "md", path, file).unwrap();
        d.view = view;
        if view == View::Wysiwyg {
            d.build_visual(80, VisualMap::default());
        }
        d
    }

    fn write(&mut self, path: &str, body: &str) {
        self.files.insert(path.to_string(), body.as_bytes().to_vec());
    }

    fn text(&self, path: &str) -> String {
        String::from_utf8(self.files[path].clone()).unwrap()
    }

    fn read(&self, d: &Doc) -> DiskRead {
        match self.files.get(&d.path) {
            Some(bytes) => DiskRead::Bytes(bytes.clone()),
            None => DiskRead::Missing("No such file or directory".to_string()),
        }
    }

    fn save(&mut self, d: &mut Doc) {
        if d.begin_save() {
            self.write(&d.path, &d.source);
            d.mark_saved();
        }
    }

    fn save_as(&mut self, d: &mut Doc, file: &str) {
        let path = format!("/docs/{file}");
        self.write(&path, &d.source);
        d.mark_saved_as(path, file.to_string());
    }
}

#[test]
fn saving_does_not_rebuild_the_map() {
    let mut disk = Disk::new();
    let mut d = disk.open(View::Wysiwyg, "cache_save", "# Title\n\nbody\n");
    d.insert("x");
    d.build_visual(80, VisualMap::default());
    let rev = d.revision();
    disk.save(&mut d);
    assert_eq!(d.revision(), rev, "a save must not move the revision");
    assert!(!d.dirty, "the save should have cleaned the document");
}

#[test]
fn a_reload_rebuilds_the_map() {
    let mut disk = Disk::new();
    let mut d = disk.open(View::Wysiwyg, "cache_reload", "# Title\n\nbody\n");
    d.build_visual(80, VisualMap::default());
    let rev = d.revision();
    disk.write(&d.path, "# Other\n\nwholly new\n");
    let read = disk.read(&d);
    d.reload(read);
    assert!(d.revision() > rev, "a reload must move the revision");
    let fresh = VisualMap { content_start: 9, ..VisualMap::default() };
    d.build_visual(80, fresh);
    assert_eq!(d.vmap.content_start, 9, "the map of the reloaded text is taken over");
    assert!(d.source.contains("wholly new"));
}

#[test]
fn a_blank_document_is_untitled_empty_and_markdown() {
    let mut d = Doc::blank().unwrap();
    assert!(d.is_untitled());
    assert_eq!(d.path, "");
    assert_eq!(d.file_name(), "untitled", "the header has to show something");
    assert_eq!(d.format_name(), "markdown");
    assert_eq!(d.source, "");
    assert!(!d.dirty, "nothing typed yet is nothing to lose");
    assert_eq!(d.disk_state(&Disk::new().read(&d)), DiskState::Untitled);
    d.build_visual(80, VisualMap::default());
    assert_eq!(d.caret, 0);
}

#[test]
fn saving_an_untitled_document_asks_for_a_name_instead_of_writing() {
    let mut disk = Disk::new();
    let mut d = Doc::blank().unwrap();
    d.insert("hello");
    assert!(d.dirty);
    disk.save(&mut d);
    assert_eq!(d.status.as_deref(), Some("untitled — save as…"));
    assert!(d.dirty, "it must not come away believing it saved");
    assert!(d.is_untitled(), "and it still has no file");
}

#[test]
fn a_blank_document_becomes_a_real_one_at_the_first_save_as() {
    let mut disk = Disk::new();
    let mut d = Doc::blank().unwrap();
    d.insert("hi");
    disk.save_as(&mut d, "blank_save_as.md");
    assert_eq!(disk.text("/docs/blank_save_as.md"), "hi");
    assert!(!d.is_untitled());
    assert!(!d.dirty);
    assert_eq!(d.file_name(), "blank_save_as.md");
    assert_eq!(d.disk_state(&disk.read(&d)), DiskState::Unchanged, "the watermark is stamped");
    d.insert("!");
    disk.save(&mut d);
    assert_eq!(disk.text("/docs/blank_save_as.md"), "hi!");
}

#[test]
fn save_as_moves_the_document_and_leaves_the_old_file_alone() {
    let mut disk = Disk::new();
    let mut d = disk.open(View::Source, "save_as_move", "original\n");
    let old = d.path.clone();
    let new = "/docs/target.md";
    d.insert("edited: ");
    disk.save_as(&mut d, "target.md");

    assert_eq!(disk.text(new), "edited: original\n");
    assert_eq!(disk.text(&old), "original\n", "Save As doesn't touch the file it came from");
    assert_eq!(d.path, new, "the document moved");
    assert!(!d.dirty);
    assert_eq!(d.status.as_deref(), Some(&*format!("saved {}", d.file_name())));

    d.caret = 0;
    d.insert("re-");
    disk.save(&mut d);
    assert_eq!(disk.text(new), "re-edited: original\n");
    assert_eq!(disk.text(&old), "original\n");
}

#[test]
fn save_as_overwrites_an_existing_target() {
    let mut disk = Disk::new();
    disk.write("/docs/target.md", "theirs\n");
    let mut d = disk.open(View::Source, "save_as_over", "ours\n");
    disk.save_as(&mut d, "target.md");
    assert_eq!(disk.text("/docs/target.md"), "ours\n");
}

#[test]
fn a_save_as_that_fails_leaves_the_document_where_it_was() {
    let mut disk = Disk::new();
    let mut d = disk.open(View::Source, "save_as_fail", "body\n");
    let old = d.path.clone();
    d.insert("x");
    d.save_failed("No such file or directory");

    assert_eq!(d.path, old, "the document must not move to a file that isn't there");
    assert!(d.dirty, "and must not believe it saved");
    assert!(
        d.status.as_deref().unwrap().starts_with("save failed:"),
        "the same failure a plain save reports, got {:?}",
        d.status
    );
    disk.save(&mut d);
    assert_eq!(disk.text(&old), "xbody\n");
    assert!(!d.dirty);
}

#[test]
fn save_as_renames_without_reparsing_the_format() {
    let mut disk = Disk::new();
    let mut d = disk.open(View::Source, "save_as_format", "**b**\n");
    disk.save_as(&mut d, "save_as_format.dj");
    assert_eq!(d.format_name(), "markdown");
}

#[test]
fn an_untouched_file_reports_unchanged() {
    let mut disk = Disk::new();
    let mut d = disk.open(View::Source, "disk_clean", "body\n");
    assert_eq!(d.disk_state(&disk.read(&d)), DiskState::Unchanged);
    d.insert("x");
    assert_eq!(d.disk_state(&disk.read(&d)), DiskState::Unchanged);
    assert!(d.dirty);
    disk.save(&mut d);
    assert_eq!(d.disk_state(&disk.read(&d)), DiskState::Unchanged);
}

#[test]
fn a_file_written_underneath_reports_changed() {
    let mut disk = Disk::new();
    let mut d = disk.open(View::Source, "disk_changed", "body\n");
    disk.write(&d.path, "someone else\n");
    assert_eq!(d.disk_state(&disk.read(&d)), DiskState::Changed);
    d.insert("x");
    assert!(d.dirty && d.disk_state(&disk.read(&d)) == DiskState::Changed);
    disk.save(&mut d);
    assert_eq!(disk.text(&d.path), "xbody\n");
    assert_eq!(d.disk_state(&disk.read(&d)), DiskState::Unchanged);
}

#[test]
fn a_file_rewritten_with_the_same_bytes_is_unchanged() {
    let mut disk = Disk::new();
    let d = disk.open(View::Source, "disk_same_bytes", "body\n");
    disk.write(&d.path, "body\n");
    assert_eq!(d.disk_state(&disk.read(&d)), DiskState::Unchanged);
}

#[test]
fn a_deleted_file_reports_missing() {
    let mut disk = Disk::new();
    let mut d = disk.open(View::Source, "disk_missing", "body\n");
    disk.files.remove(&d.path);
    assert_eq!(d.disk_state(&disk.read(&d)), DiskState::Missing);
    disk.save(&mut d);
    assert_eq!(d.disk_state(&disk.read(&d)), DiskState::Unchanged);
    assert_eq!(disk.text(&d.path), "body\n");
}

#[test]
fn a_file_that_cannot_be_read_reports_unreadable() {
    let mut disk = Disk::new();
    let mut d = disk.open(View::Source, "disk_locked", "body\n");
    let read = DiskRead::Unreadable("permission denied".to_string());
    assert_eq!(d.disk_state(&read), DiskState::Unreadable);
    d.reload(read);
    assert_eq!(d.status.as_deref(), Some("reload failed: permission denied"));
    assert_eq!(d.source, "body\n");
}

#[test]
fn reload_replaces_the_document_with_the_file() {
    for (view, tag) in VIEWS {
        let mut disk = Disk::new();
        let mut d = disk.open(view, &format!("reload_{tag}"), "one\n\ntwo\n");
        d.insert("edited ");
        assert!(d.dirty);
        disk.write(&d.path, "one\n\ntwo\n\nthree\n");
        let read = disk.read(&d);
        d.reload(read);

        assert_eq!(d.source, "one\n\ntwo\n\nthree\n", "{tag}");
        assert!(!d.dirty, "{tag}: the file is what we have");
        assert_eq!(d.disk_state(&disk.read(&d)), DiskState::Unchanged, "{tag}");
        assert_eq!(d.status.as_deref(), Some(&*format!("reloaded {}", d.file_name())));
        d.caret = d.source.find("three").unwrap();
        assert_eq!(d.breadcrumb(), "doc › para › str", "{tag}");
    }
}

#[test]
fn reload_clamps_the_caret_and_drops_the_selection() {
    let mut disk = Disk::new();
    let mut d = disk.open(View::Source, "reload_caret", "a long first line\n");
    d.caret = 12;
    d.anchor = Some(4);
    disk.write(&d.path, "short\n");
    let read = disk.read(&d);
    d.reload(read);
    assert_eq!(d.caret, d.source.len(), "clamped into the shorter file");
    assert_eq!(d.anchor, None, "a selection over bytes that changed is a lie");
    assert!(d.selection().is_none());

    let mut d = disk.open(View::Source, "reload_caret_keep", "one\n\ntwo\n");
    d.caret = 2;
    disk.write(&d.path, "one\n\ntwo\n\nthree\n");
    let read = disk.read(&d);
    d.reload(read);
    assert_eq!(d.caret, 2);
}

#[test]
fn reload_drops_the_undo_history() {
    let mut disk = Disk::new();
    let mut d = disk.open(View::Source, "reload_undo", "body\n");
    d.insert("x");
    disk.write(&d.path, "replaced\n");
    let read = disk.read(&d);
    d.reload(read);
    d.undo();
    assert_eq!(d.source, "replaced\n", "an undo must not resurrect the old buffer");
    assert_eq!(d.status.as_deref(), Some("nothing to undo"));
}

#[test]
fn a_reload_that_cant_read_leaves_the_document_alone() {
    let mut disk = Disk::new();
    let mut d = disk.open(View::Source, "reload_gone", "body\n");
    d.insert("x");
    disk.files.remove(&d.path);
    let read = disk.read(&d);
    d.reload(read);
    assert_eq!(d.source, "xbody\n", "the unsaved work is still here");
    assert!(d.dirty);
    assert!(d.status.as_deref().unwrap().starts_with("reload failed:"), "{:?}", d.status);

    let mut d = Doc::blank().unwrap();
    d.insert("typed");
    let read = disk.read(&d);
    d.reload(read);
    assert_eq!(d.source, "typed");
    assert_eq!(d.status.as_deref(), Some("no file to reload"));
}

#[test]
fn a_reload_refuses_bytes_that_are_not_text() {
    let mut disk = Disk::new();
    let mut d = disk.open(View::Source, "reload_binary", "body\n");
    d.reload(DiskRead::Bytes(vec![0xff, 0xfe]));
    assert_eq!(d.source, "body\n");
    assert_eq!(d.status.as_deref(), Some("reload failed: file is not UTF-8"));
}

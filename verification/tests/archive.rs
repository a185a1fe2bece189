use discord_theme_editor::archive::{
    injection_script, is_archivable_path, rebuild_archive, ArchiveEntry, RebuildError,
};
use discord_theme_editor::theme::{injected_css, CSSThemeProperty, Rgb, Theme};
use std::path::PathBuf;

fn property(v: u8) -> CSSThemeProperty {
    CSSThemeProperty {
        colour: Rgb { red: v, green: v, blue: v },
        custom_css_active: false,
        custom_css_value: String::new(),
    }
}

fn theme() -> Theme {
    Theme {
        background_primary: property(1),
        background_secondary: property(2),
        background_secondary_alt: property(3),
        background_tertiary: property(4),
        text_normal: property(5),
        text_muted: property(6),
        text_hyperlink: property(7),
        header_primary: property(8),
        header_secondary: property(9),
        channels_default: property(10),
    }
}

fn entry(path: &[&str], data: &[u8]) -> ArchiveEntry {
    ArchiveEntry {
        path: path.iter().map(|c| c.to_string()).collect(),
        data: data.to_vec(),
    }
}

const LOADER_JS: &str = r#"
            app.on('browser-window-created', (_event, window) => {
                window.webContents.on('did-finish-load', () => {
                    window.webContents.insertCSS(CSS);
                    console.log('Injected Discord Theme CSS');
                });
            });
            "#;

#[test]
fn injection_script_is_css_then_loader() {
    let t = theme();
    let expected = [injected_css(&t).as_bytes(), LOADER_JS.as_bytes()].concat();
    assert_eq!(injection_script(&t), expected);
}

#[test]
fn rebuilt_archive_patches_only_the_bootstrap_script() {
    let t = theme();
    let entries = vec![
        entry(&["app_bootstrap", "bootstrap.js"], b"console.log('boot');"),
        entry(&["app_bootstrap", "other.js"], b"other"),
        entry(&["index.js"], b"index"),
    ];
    let bytes = rebuild_archive(&entries, &t).expect("rebuild");
    assert_eq!(&bytes[0..4], &[4, 0, 0, 0]);
    let script = injection_script(&t);
    let patched = [&b"console.log('boot');"[..], &script].concat();
    let tail = [&patched[..], b"other", b"index"].concat();
    assert!(bytes.ends_with(&tail));

    let reader = asar::AsarReader::new(&bytes, None).expect("read back");
    let files = reader.files();
    assert_eq!(files.len(), 3);
    assert_eq!(
        files[&PathBuf::from("app_bootstrap/bootstrap.js")].data(),
        &patched[..]
    );
    assert_eq!(files[&PathBuf::from("app_bootstrap/other.js")].data(), b"other");
    assert_eq!(files[&PathBuf::from("index.js")].data(), b"index");
}

#[test]
fn rebuilt_archive_without_bootstrap_is_unchanged_in_contents() {
    let t = theme();
    let entries = vec![entry(&["a.txt"], b"A"), entry(&["dir", "b.txt"], b"BB")];
    let bytes = rebuild_archive(&entries, &t).expect("rebuild");
    assert!(bytes.ends_with(b"ABB"));
    let reader = asar::AsarReader::new(&bytes, None).expect("read back");
    assert_eq!(reader.files()[&PathBuf::from("dir/b.txt")].data(), b"BB");
}

#[test]
fn duplicate_paths_are_refused() {
    let t = theme();
    let dup = vec![entry(&["x.js"], b"1"), entry(&["x.js"], b"2")];
    assert_eq!(rebuild_archive(&dup, &t), Err(RebuildError::AddFile));
    let dup_boot = vec![
        entry(&["app_bootstrap", "bootstrap.js"], b"1"),
        entry(&["app_bootstrap", "bootstrap.js"], b"2"),
    ];
    assert_eq!(rebuild_archive(&dup_boot, &t), Err(RebuildError::WriteBootstrap));
    let dup_then_odd = vec![entry(&["a"], b"1"), entry(&["a"], b"2"), entry(&["..", "x"], b"3")];
    assert_eq!(rebuild_archive(&dup_then_odd, &t), Err(RebuildError::AddFile));
    let empty_files = vec![entry(&["b"], b""), entry(&["a"], b""), entry(&["b"], b"")];
    assert_eq!(rebuild_archive(&empty_files, &t), Err(RebuildError::AddFile));
}

#[test]
fn rebuilt_archive_reads_back_every_file_under_its_path() {
    let t = theme();
    let entries = vec![
        entry(&["b"], b""),
        entry(&["a"], b""),
        entry(&["/", "root", "c.js"], b"ccc"),
        entry(&["app_bootstrap", "bootstrap.js"], b"boot"),
    ];
    let bytes = rebuild_archive(&entries, &t).expect("rebuild");
    let reader = asar::AsarReader::new(&bytes, None).expect("read back");
    let files = reader.files();
    assert_eq!(files.len(), 4);
    assert_eq!(files[&PathBuf::from("a")].data(), b"");
    assert_eq!(files[&PathBuf::from("b")].data(), b"");
    assert_eq!(files[&PathBuf::from("root/c.js")].data(), b"ccc");
    let boot = [&b"boot"[..], &injection_script(&t)].concat();
    assert_eq!(files[&PathBuf::from("app_bootstrap/bootstrap.js")].data(), &boot[..]);
}

#[test]
fn empty_archive() {
    let bytes = rebuild_archive(&vec![], &theme()).expect("rebuild");
    assert_eq!(&bytes[0..4], &[4, 0, 0, 0]);
}

#[test]
fn archivable_paths() {
    let p = |v: &[&str]| v.iter().map(|c| c.to_string()).collect::<Vec<String>>();
    assert!(is_archivable_path(&p(&["a"])));
    assert!(is_archivable_path(&p(&["/", "a", "b.js"])));
    assert!(!is_archivable_path(&p(&[])));
    assert!(!is_archivable_path(&p(&["/"])));
    assert!(!is_archivable_path(&p(&["a", ".."])));
    assert!(!is_archivable_path(&p(&[".", "a"])));
    assert!(!is_archivable_path(&p(&["a/b"])));
    assert!(!is_archivable_path(&p(&["a", ""])));
    assert!(!is_archivable_path(&p(&["a", "/"])));
    assert!(!is_archivable_path(&p(&["C:"])));
    assert!(!is_archivable_path(&p(&["a\\b"])));
}

#[test]
fn error_messages() {
    assert_eq!(
        RebuildError::WriteBootstrap.message(),
        "Failed to write modified bootstrap.js file to asar"
    );
    assert_eq!(RebuildError::AddFile.message(), "Failed to add file to new app.asar");
    assert_eq!(
        RebuildError::WriteArchive.message(),
        "Failed to write content to app.asar.\nPlease make sure Discord is closed before applying the theme."
    );
}

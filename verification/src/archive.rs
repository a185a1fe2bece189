//! Rebuilding Discord's `app.asar` archive so that its bootstrap script
//! injects the theme's style sheet into every window.

use vstd::prelude::*;
use vstd::string::*;
use vstd::utf8::encode_utf8;

use asar::AsarWriter;

use crate::text::str_eq;
use crate::theme::{injected_css, injected_css_text, Theme};

verus! {

#[verifier::external_type_specification]
#[verifier::external_body]
pub struct ExAsarWriter(asar::AsarWriter);

#[verifier::external_type_specification]
#[verifier::external_body]
pub struct ExAsarError(asar::Error);

/// A path inside an archive, as the texts of its components.
pub type ArchivePath = Seq<Seq<char>>;

/// The files that `w` holds: each under the texts of the components of its
/// path (a root as `/`), with its contents.
pub uninterp spec fn stored_files(w: AsarWriter) -> Map<ArchivePath, Seq<u8>>;

/// The contents of all files that `w` holds, one after the other in the
/// order in which they were written.
pub uninterp spec fn stored_contents(w: AsarWriter) -> Seq<u8>;

/// The files that the asar archive `bytes` holds in itself, each under the
/// names that lead to it in the archive's header (those of its directories,
/// then its own), with its contents; `None` where `bytes` is no such archive.
pub uninterp spec fn archive_files(bytes: Seq<u8>) -> Option<Map<ArchivePath, Seq<u8>>>;

/// Whether `c` names an ordinary path component on every platform:
/// non-empty, without the separators `/` and `\`, without the drive mark
/// `:`, and neither `.` nor `..`.
pub open spec fn plain_component(c: Seq<char>) -> bool {
    &&& c.len() > 0
    &&& !c.contains('/')
    &&& !c.contains('\\')
    &&& !c.contains(':')
    &&& c != "."@
    &&& c != ".."@
}

/// Whether the path `p` consists of ordinary components, optionally after a
/// leading root `/`.
pub open spec fn plain_path(p: ArchivePath) -> bool {
    forall|i: int|
        0 <= i < p.len() ==> plain_component(#[trigger] p[i]) || (i == 0 && p[i] == "/"@)
}

/// Whether an archive can hold a file at `p`: a plain path with at least one
/// ordinary component.
pub open spec fn archivable_path(p: ArchivePath) -> bool {
    &&& plain_path(p)
    &&& p.len() > 0
    &&& !(p.len() == 1 && p[0] == "/"@)
}

/// `p` without a leading root.
pub open spec fn unrooted(p: ArchivePath) -> ArchivePath {
    if p.len() > 0 && p[0] == "/"@ {
        p.drop_first()
    } else {
        p
    }
}

/// Whether `a` is `b` or one of the directories that lead to it.
pub open spec fn leads_to(a: ArchivePath, b: ArchivePath) -> bool {
    a.len() <= b.len() && b.take(a.len() as int) == a
}

/// Whether the paths `keys`, taken without a root, lie apart: none of them
/// equals another or is a directory of another.
pub open spec fn apart(keys: Set<ArchivePath>) -> bool {
    forall|a: ArchivePath, b: ArchivePath|
        #![trigger keys.contains(a), keys.contains(b)]
        keys.contains(a) && keys.contains(b) && a != b ==> !leads_to(unrooted(a), unrooted(b))
}

/// The files of `m` with each path taken without its root.
pub open spec fn unrooted_files(m: Map<ArchivePath, Seq<u8>>) -> Map<ArchivePath, Seq<u8>> {
    Map::new(
        |q: ArchivePath| exists|k: ArchivePath| m.dom().contains(k) && unrooted(k) == q,
        |q: ArchivePath| m[choose|k: ArchivePath| m.dom().contains(k) && unrooted(k) == q],
    )
}

/// Whether one of the first `n` files of `files` lies at `p`.
pub open spec fn path_among(files: Seq<(ArchivePath, Seq<u8>)>, n: int, p: ArchivePath) -> bool {
    exists|k: int| 0 <= k < n && (#[trigger] files[k]).0 == p
}

/// The contents of `files`, one after the other.
pub open spec fn contents_of(files: Seq<(ArchivePath, Seq<u8>)>) -> Seq<u8>
    decreases files.len(),
{
    if files.len() == 0 {
        Seq::empty()
    } else {
        contents_of(files.drop_last()) + files.last().1
    }
}

/// The files `files` as a map from path to contents, a later file replacing
/// an earlier one at the same path.
pub open spec fn files_map(files: Seq<(ArchivePath, Seq<u8>)>) -> Map<ArchivePath, Seq<u8>>
    decreases files.len(),
{
    if files.len() == 0 {
        Map::empty()
    } else {
        files_map(files.drop_last()).insert(files.last().0, files.last().1)
    }
}

/// Creates an empty archive writer.
///
/// Calls `asar::AsarWriter::new`, which starts with no files and an empty
/// buffer of contents.
#[verifier::external_body]
fn new_writer() -> (w: AsarWriter)
    ensures
        stored_files(w).dom() == Set::<ArchivePath>::empty(),
        stored_contents(w) == Seq::<u8>::empty(),
{
    AsarWriter::new()
}

/// Adds the file `bytes` at `path` to the archive being written.
///
/// Calls `asar::AsarWriter::write_file` with the path collected from
/// `path`'s components and `executable` false. Its source refuses, with
/// `FileAlreadyWritten`, a path that its map of files already holds, and
/// otherwise appends `bytes` to its buffer and records the file under that
/// path. The map compares paths by their components. A plain path collects,
/// on every platform, to a path whose components are its texts, so for it the
/// key is stated; for other paths only the buffer is stated.
#[verifier::external_body]
fn write_file(w: &mut AsarWriter, path: &Vec<String>, bytes: &[u8]) -> (r: Result<(), asar::Error>)
    ensures
        r is Err ==> stored_files(*final(w)) == stored_files(*old(w)) && stored_contents(*final(w))
            == stored_contents(*old(w)),
        r is Ok ==> stored_contents(*final(w)) == stored_contents(*old(w)) + bytes@,
        plain_path(path.deep_view()) ==> (r is Ok <==> !stored_files(*old(w)).dom().contains(
            path.deep_view(),
        )),
        plain_path(path.deep_view()) && r is Ok ==> stored_files(*final(w)) == stored_files(
            *old(w),
        ).insert(path.deep_view(), bytes@),
{
    let p: std::path::PathBuf = path.iter().collect();
    w.write_file(p, bytes, false)
}

/// Writes out the archive: its header, then the contents of its files.
///
/// Calls `asar::AsarWriter::finalize` into a byte vector. Its source writes
/// the number 4 as a little-endian `u32`, three more such numbers, the JSON
/// header, and last its buffer of contents. It panics on a path with no
/// ordinary component or with a `.` or `..` component, which `requires`
/// leaves out. Otherwise it fails only where the writer or the JSON
/// serialisation fails, and neither does for a byte vector and a header of
/// string keys. The header lists each file under the ordinary components of
/// its path, with its offset and size in the buffer; where the files' paths
/// lie apart, no entry of the header hides another, and `asar::AsarReader`
/// reads back each file with its contents. The header's directories come
/// from a `HashMap`, so its bytes are not stated.
#[verifier::external_body]
fn finish_archive(w: AsarWriter) -> (r: Result<Vec<u8>, asar::Error>)
    requires
        forall|k: ArchivePath| #[trigger] stored_files(w).dom().contains(k) ==> archivable_path(k),
    ensures
        r is Ok,
        r matches Ok(bytes) ==> {
            &&& bytes@.len() >= 16 + stored_contents(w).len()
            &&& bytes@.take(4) == seq![4u8, 0u8, 0u8, 0u8]
            &&& bytes@.skip(bytes@.len() - stored_contents(w).len()) == stored_contents(w)
            &&& apart(stored_files(w).dom()) ==> archive_files(bytes@) == Some(
                unrooted_files(stored_files(w)),
            )
        },
{
    let mut out: Vec<u8> = Vec::new();
    match w.finalize(&mut out) {
        Ok(_) => Ok(out),
        Err(e) => Err(e),
    }
}

/// The script that installs the theme's style sheet in each new Discord
/// window, to be run after the style sheet's definition.
pub open spec fn loader_js() -> Seq<char> {
    "\n            app.on('browser-window-created', (_event, window) => {\n                window.webContents.on('did-finish-load', () => {\n                    window.webContents.insertCSS(CSS);\n                    console.log('Injected Discord Theme CSS');\n                });\n            });\n            "@
}

/// The bytes appended to Discord's bootstrap script: the definition of the
/// theme's style sheet, then the script that installs it, both in UTF-8.
pub open spec fn injected_script(t: Theme) -> Seq<u8> {
    encode_utf8(injected_css_text(t)) + encode_utf8(loader_js())
}

/// Whether `p` is the path of Discord's bootstrap script.
pub open spec fn is_bootstrap_path(p: ArchivePath) -> bool {
    p == seq!["app_bootstrap"@, "bootstrap.js"@]
}

/// A file of an archive: its path, as the texts of its components, and its
/// contents.
pub struct ArchiveEntry {
    pub path: Vec<String>,
    pub data: Vec<u8>,
}

impl View for ArchiveEntry {
    type V = (ArchivePath, Seq<u8>);

    open spec fn view(&self) -> (ArchivePath, Seq<u8>) {
        (self.path.deep_view(), self.data@)
    }
}

/// The files of an archive as paths and contents.
pub open spec fn entries_view(entries: Seq<ArchiveEntry>) -> Seq<(ArchivePath, Seq<u8>)> {
    entries.map_values(|e: ArchiveEntry| e@)
}

/// `files` with `script` appended to the bootstrap script, every other file
/// unchanged, in the same order.
pub open spec fn patched_files(files: Seq<(ArchivePath, Seq<u8>)>, script: Seq<u8>) -> Seq<
    (ArchivePath, Seq<u8>),
> {
    files.map_values(
        |f: (ArchivePath, Seq<u8>)|
            if is_bootstrap_path(f.0) {
                (f.0, f.1 + script)
            } else {
                f
            },
    )
}

/// Whether no two of `files` lie at the same path.
pub open spec fn distinct_paths(files: Seq<(ArchivePath, Seq<u8>)>) -> bool {
    forall|i: int, j: int| 0 <= i < j < files.len() ==> files[i].0 != files[j].0
}

/// Patching touches only Discord's bootstrap script, the file at exactly
/// `app_bootstrap/bootstrap.js`: every file keeps its place and path, every
/// file at any other path keeps its contents, and the bootstrap script keeps
/// its contents followed by `script`.
pub proof fn law_patch_touches_only_bootstrap(files: Seq<(ArchivePath, Seq<u8>)>, script: Seq<u8>)
    ensures
        patched_files(files, script).len() == files.len(),
        forall|i: int|
            0 <= i < files.len() ==> {
                let p = #[trigger] patched_files(files, script)[i];
                &&& p.0 == files[i].0
                &&& files[i].0 != seq!["app_bootstrap"@, "bootstrap.js"@] ==> p.1 == files[i].1
                &&& files[i].0 == seq!["app_bootstrap"@, "bootstrap.js"@] ==> p.1 == files[i].1
                    + script
            },
{
}

/// Why an archive could not be rebuilt.
#[derive(Debug, PartialEq, Eq, Clone, Copy)]
pub enum RebuildError {
    /// The patched bootstrap script could not be added.
    WriteBootstrap,
    /// Another file could not be added.
    AddFile,
    /// The rebuilt archive could not be written out.
    WriteArchive,
}

impl RebuildError {
    /// The message shown for this error.
    pub fn message(&self) -> (m: &'static str)
        ensures
            m@ == match self {
                RebuildError::WriteBootstrap => "Failed to write modified bootstrap.js file to asar"@,
                RebuildError::AddFile => "Failed to add file to new app.asar"@,
                RebuildError::WriteArchive => "Failed to write content to app.asar.\nPlease make sure Discord is closed before applying the theme."@,
            },
    {
        match self {
            RebuildError::WriteBootstrap => "Failed to write modified bootstrap.js file to asar",
            RebuildError::AddFile => "Failed to add file to new app.asar",
            RebuildError::WriteArchive => "Failed to write content to app.asar.\nPlease make sure Discord is closed before applying the theme.",
        }
    }
}

/// Whether `c` names an ordinary path component.
fn is_plain_component(c: &str) -> (b: bool)
    ensures
        b == plain_component(c@),
{
    let cs = crate::text::chars_of(c);
    if cs.len() == 0 || str_eq(c, ".") || str_eq(c, "..") {
        return false;
    }
    let mut i: usize = 0;
    while i < cs.len()
        invariant
            cs@ == c@,
            i <= cs.len(),
            forall|k: int| 0 <= k < i ==> cs@[k] != '/' && cs@[k] != '\\' && cs@[k] != ':',
        decreases cs.len() - i,
    {
        if cs[i] == '/' || cs[i] == '\\' || cs[i] == ':' {
            assert(c@[i as int] == cs@[i as int]);
            return false;
        }
        i = i + 1;
    }
    assert(!c@.contains('/') && !c@.contains('\\') && !c@.contains(':')) by {
        assert forall|k: int| 0 <= k < c@.len() implies c@[k] != '/' && c@[k] != '\\' && c@[k]
            != ':' by {
            assert(c@[k] == cs@[k]);
        }
    }
    true
}

/// Whether an archive can hold a file at `path`.
pub fn is_archivable_path(path: &Vec<String>) -> (b: bool)
    ensures
        b == archivable_path(path.deep_view()),
{
    let ghost p = path.deep_view();
    let n = path.len();
    assert(p.len() == n);
    if n == 0 {
        return false;
    }
    assert(p[0] == path@[0]@);
    let root = str_eq(path[0].as_str(), "/");
    if n == 1 && root {
        return false;
    }
    let mut i: usize = 0;
    while i < n
        invariant
            n == path.len(),
            p == path.deep_view(),
            p.len() == n,
            n > 0,
            root == (p[0] == "/"@),
            i <= n,
            forall|k: int| 0 <= k < i ==> plain_component(#[trigger] p[k]) || (k == 0 && p[k] == "/"@),
        decreases n - i,
    {
        assert(p[i as int] == path@[i as int]@);
        if !(is_plain_component(path[i].as_str()) || (i == 0 && root)) {
            return false;
        }
        i = i + 1;
    }
    true
}

/// Whether `path` is the path of Discord's bootstrap script.
fn is_bootstrap(path: &Vec<String>) -> (b: bool)
    ensures
        b == is_bootstrap_path(path.deep_view()),
{
    let ghost p = path.deep_view();
    assert(p.len() == path.len());
    if path.len() != 2 {
        return false;
    }
    assert(p[0] == path@[0]@ && p[1] == path@[1]@);
    let r = str_eq(path[0].as_str(), "app_bootstrap") && str_eq(path[1].as_str(), "bootstrap.js");
    assert(r ==> p =~= seq!["app_bootstrap"@, "bootstrap.js"@]);
    r
}

/// `a` followed by `b`.
fn concat_bytes(a: &[u8], b: &[u8]) -> (r: Vec<u8>)
    ensures
        r@ == a@ + b@,
{
    let mut r: Vec<u8> = Vec::with_capacity(a.len());
    let mut i: usize = 0;
    while i < a.len()
        invariant
            i <= a.len(),
            r@ == a@.take(i as int),
        decreases a.len() - i,
    {
        r.push(a[i]);
        i = i + 1;
        assert(r@ =~= a@.take(i as int));
    }
    let mut j: usize = 0;
    while j < b.len()
        invariant
            i == a.len(),
            j <= b.len(),
            r@ == a@ + b@.take(j as int),
        decreases b.len() - j,
    {
        r.push(b[j]);
        j = j + 1;
        assert(r@ =~= a@ + b@.take(j as int));
    }
    assert(a@.take(a.len() as int) =~= a@);
    assert(b@.take(b.len() as int) =~= b@);
    r
}

/// The bytes appended to Discord's bootstrap script for `theme`.
pub fn injection_script(theme: &Theme) -> (script: Vec<u8>)
    ensures
        script@ == injected_script(*theme),
{
    let css = injected_css(theme);
    let loader = "\n            app.on('browser-window-created', (_event, window) => {\n                window.webContents.on('did-finish-load', () => {\n                    window.webContents.insertCSS(CSS);\n                    console.log('Injected Discord Theme CSS');\n                });\n            });\n            ";
    concat_bytes(css.as_str().as_bytes(), loader.as_bytes())
}


/// Whether two paths have the same component texts.
fn same_path(a: &Vec<String>, b: &Vec<String>) -> (r: bool)
    ensures
        r == (a.deep_view() == b.deep_view()),
{
    if a.len() != b.len() {
        assert(a.deep_view().len() != b.deep_view().len());
        return false;
    }
    let mut k: usize = 0;
    while k < a.len()
        invariant
            a.len() == b.len(),
            k <= a.len(),
            forall|m: int| 0 <= m < k ==> a.deep_view()[m] == b.deep_view()[m],
        decreases a.len() - k,
    {
        if !str_eq(a[k].as_str(), b[k].as_str()) {
            assert(a.deep_view()[k as int] != b.deep_view()[k as int]);
            return false;
        }
        k = k + 1;
    }
    assert(a.deep_view() =~= b.deep_view());
    true
}

/// Whether one of the first `i` entries lies at the path of entry `i`.
fn repeats_earlier(entries: &Vec<ArchiveEntry>, i: usize) -> (r: bool)
    requires
        i < entries@.len(),
    ensures
        r == path_among(entries_view(entries@), i as int, entries@[i as int]@.0),
{
    let ghost files = entries_view(entries@);
    let mut k: usize = 0;
    while k < i
        invariant
            files == entries_view(entries@),
            i < entries@.len(),
            k <= i,
            !path_among(files, k as int, entries@[i as int]@.0),
        decreases i - k,
    {
        if same_path(&entries[k].path, &entries[i].path) {
            assert(files[k as int].0 == entries@[i as int]@.0);
            return true;
        }
        assert(files[k as int].0 != entries@[i as int]@.0);
        k = k + 1;
    }
    false
}

/// The paths that `files` maps are the paths of its files.
proof fn lemma_files_map_domain(files: Seq<(ArchivePath, Seq<u8>)>)
    ensures
        forall|p: ArchivePath|
            #[trigger] files_map(files).dom().contains(p) <==> path_among(
                files,
                files.len() as int,
                p,
            ),
    decreases files.len(),
{
    if files.len() > 0 {
        let init = files.drop_last();
        lemma_files_map_domain(init);
        assert forall|p: ArchivePath| #[trigger] files_map(files).dom().contains(p) <==> path_among(
            files,
            files.len() as int,
            p,
        ) by {
            assert(files_map(files).dom() == files_map(init).dom().insert(files.last().0));
            if p == files.last().0 {
                assert(files[files.len() - 1].0 == p);
            } else if path_among(init, init.len() as int, p) {
                let k = choose|k: int| 0 <= k < init.len() && (#[trigger] init[k]).0 == p;
                assert(files[k] == init[k]);
            }
            if path_among(files, files.len() as int, p) {
                let k = choose|k: int| 0 <= k < files.len() && (#[trigger] files[k]).0 == p;
                if k < files.len() - 1 {
                    assert(init[k] == files[k]);
                    assert(path_among(init, init.len() as int, p));
                } else {
                    assert(files[k] == files.last());
                }
            }
        }
    }
}

/// Rebuilds an archive from its `entries` with the theme's style sheet
/// injected into Discord's bootstrap script: every file is written in the
/// given order, the bootstrap script with [`injected_script`] appended, and
/// the archive is written out.
///
/// A path repeated among the entries is refused when it is reached, as the
/// writer refuses it. Writing out an archive is only possible where every
/// path is [`archivable_path`]; with paths that are all different that is
/// required.
pub fn rebuild_archive(entries: &Vec<ArchiveEntry>, theme: &Theme) -> (r: Result<
    Vec<u8>,
    RebuildError,
>)
    requires
        distinct_paths(entries_view(entries@)) ==> forall|k: int|
            0 <= k < entries@.len() ==> archivable_path(#[trigger] entries@[k]@.0),
    ensures
        ({
            let files = patched_files(entries_view(entries@), injected_script(*theme));
            &&& r is Ok <==> distinct_paths(files)
            &&& r matches Ok(bytes) ==> {
                &&& bytes@.take(4) == seq![4u8, 0u8, 0u8, 0u8]
                &&& bytes@.len() >= 16 + contents_of(files).len()
                &&& bytes@.skip(bytes@.len() - contents_of(files).len()) == contents_of(files)
                &&& apart(files_map(files).dom()) ==> archive_files(bytes@) == Some(
                    unrooted_files(files_map(files)),
                )
            }
            &&& r matches Err(e) ==> exists|j: int|
                0 <= j < files.len() && distinct_paths(files.take(j)) && (e
                    == RebuildError::WriteBootstrap <==> is_bootstrap_path(#[trigger] files[j].0))
                    && ((forall|k: int| 0 <= k <= j ==> plain_path(files[k].0)) ==> path_among(
                    files,
                    j,
                    files[j].0,
                )) && e != RebuildError::WriteArchive
        }),
{
    let script = injection_script(theme);
    let ghost all = entries_view(entries@);
    let ghost files = patched_files(all, injected_script(*theme));
    assert forall|k: int| 0 <= k < files.len() implies (#[trigger] files[k]).0 == all[k].0 && all[k]
        == entries@[k]@ by {}
    assert(distinct_paths(files) == distinct_paths(all)) by {
        assert forall|a: int, b: int| 0 <= a < b < files.len() implies (files[a].0 == files[b].0
            <==> all[a].0 == all[b].0) by {
            assert(files[a].0 == all[a].0 && files[b].0 == all[b].0);
        }
    }
    let mut writer = new_writer();
    let mut i: usize = 0;
    assert(files.take(0) =~= Seq::<(ArchivePath, Seq<u8>)>::empty());
    assert(files_map(files.take(0)) =~= stored_files(writer));
    while i < entries.len()
        invariant
            script@ == injected_script(*theme),
            all == entries_view(entries@),
            files == patched_files(all, injected_script(*theme)),
            files.len() == entries@.len(),
            forall|k: int| 0 <= k < files.len() ==> (#[trigger] files[k]).0 == all[k].0 && all[k]
                == entries@[k]@,
            distinct_paths(files) == distinct_paths(all),
            distinct_paths(all) ==> forall|k: int|
                0 <= k < entries@.len() ==> archivable_path(#[trigger] entries@[k]@.0),
            i <= entries.len(),
            stored_contents(writer) == contents_of(files.take(i as int)),
            (forall|k: int| 0 <= k < i ==> plain_path(#[trigger] files[k].0)) ==> stored_files(
                writer,
            ) == files_map(files.take(i as int)),
            distinct_paths(files.take(i as int)),
        decreases entries.len() - i,
    {
        let entry = &entries[i];
        let ghost before = stored_files(writer);
        let ghost current = files[i as int];
        let ghost earlier = files.take(i as int);
        assert(current == (if is_bootstrap_path(entry@.0) {
            (entry@.0, entry@.1 + script@)
        } else {
            entry@
        }));
        let bootstrap = is_bootstrap(&entry.path);
        let repeated = repeats_earlier(entries, i);
        assert(repeated == path_among(files, i as int, current.0)) by {
            if path_among(all, i as int, all[i as int].0) {
                let k = choose|k: int| 0 <= k < i && (#[trigger] all[k]).0 == all[i as int].0;
                assert(files[k].0 == all[k].0);
            }
            if path_among(files, i as int, current.0) {
                let k = choose|k: int| 0 <= k < i && (#[trigger] files[k]).0 == current.0;
                assert(files[k].0 == all[k].0);
            }
        }
        if repeated {
            assert(!distinct_paths(files)) by {
                let k = choose|k: int| 0 <= k < i && (#[trigger] files[k]).0 == current.0;
            }
            if bootstrap {
                return Err(RebuildError::WriteBootstrap);
            } else {
                return Err(RebuildError::AddFile);
            }
        }
        let written = if bootstrap {
            let data = concat_bytes(entry.data.as_slice(), script.as_slice());
            write_file(&mut writer, &entry.path, data.as_slice())
        } else {
            write_file(&mut writer, &entry.path, entry.data.as_slice())
        };
        proof {
            lemma_files_map_domain(earlier);
        }
        match written {
            Ok(()) => {},
            Err(_) => {
                assert(!distinct_paths(files)) by {
                    if distinct_paths(files) {
                        assert(archivable_path(entries@[i as int]@.0));
                        assert forall|k: int| 0 <= k < i implies plain_path(
                            #[trigger] files[k].0,
                        ) by {
                            assert(archivable_path(entries@[k]@.0));
                        }
                        assert(before == files_map(earlier));
                        assert(files_map(earlier).dom().contains(current.0));
                        let k = choose|k: int| 0 <= k < i && (#[trigger] earlier[k]).0 == current.0;
                        assert(earlier[k] == files[k]);
                    }
                }
                assert((forall|k: int| 0 <= k <= i ==> plain_path(files[k].0)) ==> path_among(
                    files,
                    i as int,
                    current.0,
                )) by {
                    if forall|k: int| 0 <= k <= i ==> plain_path(files[k].0) {
                        assert forall|k: int| 0 <= k < i implies plain_path(
                            #[trigger] files[k].0,
                        ) by {}
                        assert(plain_path(files[i as int].0));
                        assert(files_map(earlier).dom().contains(current.0));
                        let k = choose|k: int| 0 <= k < i && (#[trigger] earlier[k]).0 == current.0;
                        assert(earlier[k] == files[k]);
                    }
                }
                if bootstrap {
                    return Err(RebuildError::WriteBootstrap);
                } else {
                    return Err(RebuildError::AddFile);
                }
            },
        }
        assert(files.take(i + 1) =~= earlier.push(current));
        assert(files.take(i + 1).drop_last() =~= earlier);
        assert(stored_contents(writer) == contents_of(files.take(i + 1)));
        assert((forall|k: int| 0 <= k < i + 1 ==> plain_path(#[trigger] files[k].0))
            ==> stored_files(writer) == files_map(files.take(i + 1))) by {
            if forall|k: int| 0 <= k < i + 1 ==> plain_path(#[trigger] files[k].0) {
                assert(plain_path(files[i as int].0));
                assert forall|k: int| 0 <= k < i implies plain_path(#[trigger] files[k].0) by {
                    assert(plain_path(files[k].0));
                }
            }
        }
        let ghost t = files.take(i + 1);
        assert(distinct_paths(t)) by {
            assert forall|a: int, b: int| 0 <= a < b < i + 1 implies (#[trigger] t[a]).0
                != (#[trigger] t[b]).0 by {
                assert(t[a] == files[a] && t[b] == files[b]);
                if b == i && files[a].0 == current.0 {
                    assert(path_among(files, i as int, current.0));
                }
            }
        }
        i = i + 1;
    }
    assert(files.take(entries.len() as int) =~= files);
    assert forall|k: int| 0 <= k < files.len() implies plain_path(#[trigger] files[k].0) by {
        assert(archivable_path(entries@[k]@.0));
    }
    proof {
        lemma_files_map_domain(files);
    }
    assert forall|p: ArchivePath| #[trigger] stored_files(writer).dom().contains(p) implies archivable_path(
        p,
    ) by {
        let k = choose|k: int| 0 <= k < files.len() && (#[trigger] files[k]).0 == p;
        assert(archivable_path(entries@[k]@.0));
    }
    match finish_archive(writer) {
        Ok(bytes) => Ok(bytes),
        Err(_) => Err(RebuildError::WriteArchive),
    }
}

} // verus!

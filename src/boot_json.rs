//! The `boot.json` manifest of a mod: its identity, its categorized file
//! lists, and how newly found files are merged into those lists.
use vstd::prelude::*;
use crate::path::{
    clean_relative, components, ends_with, lemma_relative_has_no_backslash, normalize_separators, process_file_path, relative_of, same_text, slashed,
    text_ends_with, texts,
};

verus! {

/// One text replacement that an addon plugin applies to a passage.
pub struct ParamEntry {
    pub passage: String,
    pub find_string: String,
    pub replace: String,
}

/// A plugin that this mod hands to another mod.
pub struct AddonPlugin {
    pub mod_name: String,
    pub addon_name: String,
    pub mod_version: String,
    pub params: Vec<ParamEntry>,
}

/// A mod that this mod depends on, with the version it asks for.
pub struct DependenceInfo {
    pub mod_name: String,
    pub version: String,
}

/// A mod's manifest. Each list holds paths relative to the manifest's own
/// directory, written with forward slashes.
pub struct BootJson {
    pub name: String,
    pub version: Option<String>,
    /// Extra files: readme, license, source maps.
    pub addition_file: Option<Vec<String>>,
    pub img_file_list: Option<Vec<String>>,
    pub script_file_list: Option<Vec<String>>,
    pub twee_file_list: Option<Vec<String>>,
    pub style_file_list: Option<Vec<String>>,
    pub addon_plugin: Option<Vec<AddonPlugin>>,
    pub dependence_info: Option<Vec<DependenceInfo>>,
}

/// The manifest as mathematical values.
pub struct ManifestView {
    pub name: Seq<char>,
    pub version: Option<Seq<char>>,
    pub addenda: Option<Seq<Seq<char>>>,
    pub images: Option<Seq<Seq<char>>>,
    pub scripts: Option<Seq<Seq<char>>>,
    pub stories: Option<Seq<Seq<char>>>,
    pub styles: Option<Seq<Seq<char>>>,
    pub plugins: Option<Seq<AddonPlugin>>,
    pub deps: Option<Seq<DependenceInfo>>,
}

/// The character sequences of an optional list of strings.
pub open spec fn opt_texts(o: Option<Vec<String>>) -> Option<Seq<Seq<char>>> {
    match o {
        Some(v) => Some(texts(v@)),
        None => None,
    }
}

/// The items of an optional list.
pub open spec fn opt_seq<T>(o: Option<Vec<T>>) -> Option<Seq<T>> {
    match o {
        Some(v) => Some(v@),
        None => None,
    }
}

/// The items of an optional list; an absent list holds none.
pub open spec fn or_empty<T>(o: Option<Seq<T>>) -> Seq<T> {
    match o {
        Some(s) => s,
        None => Seq::empty(),
    }
}

impl View for BootJson {
    type V = ManifestView;

    open spec fn view(&self) -> ManifestView {
        ManifestView {
            name: self.name@,
            version: match self.version {
                Some(v) => Some(v@),
                None => None,
            },
            addenda: opt_texts(self.addition_file),
            images: opt_texts(self.img_file_list),
            scripts: opt_texts(self.script_file_list),
            stories: opt_texts(self.twee_file_list),
            styles: opt_texts(self.style_file_list),
            plugins: opt_seq(self.addon_plugin),
            deps: opt_seq(self.dependence_info),
        }
    }
}

/// The manifest's own file name.
pub open spec fn manifest_file_name() -> Seq<char> {
    seq!['b', 'o', 'o', 't', '.', 'j', 's', 'o', 'n']
}

/// The version given to a manifest that names none.
pub open spec fn default_version() -> Seq<char> {
    seq!['1', '.', '0', '.', '0']
}

/// `list` with each path of `found` appended, in order, unless already there.
pub open spec fn added(list: Seq<Seq<char>>, found: Seq<Seq<char>>) -> Seq<Seq<char>>
    decreases found.len(),
{
    if found.len() == 0 {
        list
    } else {
        let before = added(list, found.drop_last());
        if before.contains(found.last()) {
            before
        } else {
            before.push(found.last())
        }
    }
}

/// The paths of `found` that lie under `cwd`, relative to it, in order.
pub open spec fn relatives(found: Seq<Seq<char>>, cwd: Seq<char>) -> Seq<Seq<char>>
    decreases found.len(),
{
    if found.len() == 0 {
        Seq::empty()
    } else {
        let before = relatives(found.drop_last(), cwd);
        match relative_of(found.last(), cwd) {
            Some(r) => before.push(r),
            None => before,
        }
    }
}

impl ManifestView {
    /// A relative path belongs to the package: the manifest itself, or a
    /// path in one of the five lists once its separators are normalized.
    pub open spec fn is_member(self, value: Seq<char>) -> bool {
        let n = slashed(value);
        value == manifest_file_name() || or_empty(self.images).contains(n) || or_empty(
            self.scripts,
        ).contains(n) || or_empty(self.stories).contains(n) || or_empty(self.styles).contains(n)
            || or_empty(self.addenda).contains(n)
    }

    /// Every optional field resolved to its default.
    pub open spec fn with_defaults(self) -> ManifestView {
        ManifestView {
            name: self.name,
            version: Some(
                match self.version {
                    Some(v) => v,
                    None => default_version(),
                },
            ),
            addenda: Some(or_empty(self.addenda)),
            images: Some(or_empty(self.images)),
            scripts: Some(or_empty(self.scripts)),
            stories: Some(or_empty(self.stories)),
            styles: Some(or_empty(self.styles)),
            plugins: Some(or_empty(self.plugins)),
            deps: Some(or_empty(self.deps)),
        }
    }

    /// Every list, the plugins and the dependencies present, absent ones
    /// empty.
    pub open spec fn prepared(self) -> ManifestView {
        ManifestView {
            name: self.name,
            version: self.version,
            addenda: Some(or_empty(self.addenda)),
            images: Some(or_empty(self.images)),
            scripts: Some(or_empty(self.scripts)),
            stories: Some(or_empty(self.stories)),
            styles: Some(or_empty(self.styles)),
            plugins: Some(or_empty(self.plugins)),
            deps: Some(or_empty(self.deps)),
        }
    }

    /// The manifest after merging what a scan of `cwd` found.
    pub open spec fn reconciled(self, scan: ScanView, cwd: Seq<char>) -> ManifestView {
        ManifestView {
            name: self.name,
            version: self.version,
            addenda: Some(
                added(added(or_empty(self.addenda), scan.addenda), relatives(scan.source_maps, cwd)),
            ),
            images: Some(added(or_empty(self.images), relatives(scan.images, cwd))),
            scripts: Some(added(or_empty(self.scripts), relatives(scan.scripts, cwd))),
            stories: Some(added(or_empty(self.stories), relatives(scan.stories, cwd))),
            styles: Some(added(or_empty(self.styles), relatives(scan.styles, cwd))),
            plugins: Some(or_empty(self.plugins)),
            deps: Some(or_empty(self.deps)),
        }
    }
}

/// What a scan of a mod's working directory found: the well-known extra
/// files present at its top, and the paths that each file pattern matched.
pub struct Scan {
    pub addenda: Vec<String>,
    pub images: Vec<String>,
    pub scripts: Vec<String>,
    pub styles: Vec<String>,
    pub stories: Vec<String>,
    pub source_maps: Vec<String>,
}

/// A scan as mathematical values.
pub struct ScanView {
    pub addenda: Seq<Seq<char>>,
    pub images: Seq<Seq<char>>,
    pub scripts: Seq<Seq<char>>,
    pub styles: Seq<Seq<char>>,
    pub stories: Seq<Seq<char>>,
    pub source_maps: Seq<Seq<char>>,
}

impl View for Scan {
    type V = ScanView;

    open spec fn view(&self) -> ScanView {
        ScanView {
            addenda: texts(self.addenda@),
            images: texts(self.images@),
            scripts: texts(self.scripts@),
            styles: texts(self.styles@),
            stories: texts(self.stories@),
            source_maps: texts(self.source_maps@),
        }
    }
}

/// The extra files that a scan looks for at the top of a working directory.
pub open spec fn well_known_addenda() -> Seq<Seq<char>> {
    seq!["README.md"@, "README.txt"@, "License.txt"@, "License"@]
}

/// A scan whose extra files are all among the well-known ones.
pub open spec fn plausible_scan(scan: ScanView) -> bool {
    forall|k: int| 0 <= k < scan.addenda.len() ==> well_known_addenda().contains(scan.addenda[k])
}

/// Failure to scan a working directory.
pub enum ScanError {
    /// The file pattern built from the directory is not a valid pattern.
    Pattern(glob::PatternError),
    /// An entry that the pattern reached could not be read.
    Unreadable(glob::GlobError),
}

#[verifier::external_type_specification]
#[verifier::external_body]
pub struct ExPatternError(glob::PatternError);

#[verifier::external_type_specification]
#[verifier::external_body]
pub struct ExGlobError(glob::GlobError);

/// Whether glob accepts `pattern`; this depends on the pattern's text alone.
pub uninterp spec fn glob_pattern_ok(pattern: Seq<char>) -> bool;

/// Relies on glob::glob: the pattern error exactly when glob refuses the
/// pattern; otherwise the entries it matches on disk, in glob's order: each
/// readable one as its path text (nothing where the path is not UTF-8), and
/// each unreadable one as glob's error.
#[verifier::external_body]
fn glob_paths(pattern: &str) -> (r: Result<Vec<Result<Option<String>, glob::GlobError>>, glob::PatternError>)
    ensures
        r is Ok <==> glob_pattern_ok(pattern@),
{
    let paths = glob::glob(pattern)?;
    let mut out = Vec::new();
    for entry in paths {
        match entry {
            Ok(p) => match p.to_str() {
                Some(t) => out.push(Ok(Some(t.to_string()))),
                None => out.push(Ok(None)),
            },
            Err(e) => out.push(Err(e)),
        }
    }
    Ok(out)
}

/// Relies on std::path::Path::exists: whether the file system has an entry
/// at `p`.
#[verifier::external_body]
fn path_exists(p: &str) -> bool {
    std::path::Path::new(p).exists()
}

/// The pattern that finds the files under `cwd` whose names end in `.{ext}`.
pub open spec fn pattern_for(cwd: Seq<char>, ext: Seq<char>) -> Seq<char> {
    cwd + "/**/*."@ + ext
}

/// glob accepts each of the five patterns of a scan of `cwd`.
pub open spec fn patterns_ok(cwd: Seq<char>) -> bool {
    &&& glob_pattern_ok(pattern_for(cwd, "png"@))
    &&& glob_pattern_ok(pattern_for(cwd, "js"@))
    &&& glob_pattern_ok(pattern_for(cwd, "css"@))
    &&& glob_pattern_ok(pattern_for(cwd, "twee"@))
    &&& glob_pattern_ok(pattern_for(cwd, "js.map"@))
}

/// `p` lies strictly below `cwd`: its relative path is not empty.
pub open spec fn strictly_below(p: Seq<char>, cwd: Seq<char>) -> bool {
    match relative_of(p, cwd) {
        Some(q) => q.len() > 0,
        None => false,
    }
}

/// Each of `paths` lies strictly below `cwd` and ends in `.{ext}`.
pub open spec fn all_found(paths: Seq<Seq<char>>, cwd: Seq<char>, ext: Seq<char>) -> bool {
    forall|k: int|
        0 <= k < paths.len() ==> strictly_below(#[trigger] paths[k], cwd) && ends_with(
            paths[k],
            "."@ + ext,
        )
}

/// A scan that could come from `cwd`: well-known extra files, and files
/// below `cwd` with their category's extension.
pub open spec fn fits(scan: ScanView, cwd: Seq<char>) -> bool {
    &&& plausible_scan(scan)
    &&& all_found(scan.images, cwd, "png"@)
    &&& all_found(scan.scripts, cwd, "js"@)
    &&& all_found(scan.styles, cwd, "css"@)
    &&& all_found(scan.stories, cwd, "twee"@)
    &&& all_found(scan.source_maps, cwd, "js.map"@)
}

/// The path of the entry `name` directly inside `cwd`.
pub fn top_file_path(cwd: &str, name: &str) -> (r: String)
    ensures
        r@ == cwd@ + "/"@ + name@,
{
    let mut full = String::from_str(cwd);
    full.append("/");
    full.append(name);
    full
}

/// Appends `name` to `list` when `cwd` holds an entry of that name, as
/// `path_exists` finds it at `top_file_path(cwd, name)`.
fn note_if_present(list: &mut Vec<String>, cwd: &str, name: &str)
    ensures
        texts(final(list)@) == texts(old(list)@) || texts(final(list)@) == texts(old(list)@).push(
            name@,
        ),
{
    let full = top_file_path(cwd, name);
    if path_exists(full.as_str()) {
        let ghost before = list@;
        list.push(String::from_str(name));
        assert(texts(list@) =~= texts(before).push(name@));
    }
}

/// Whether `p` lies strictly below `cwd` and ends with `suffix`.
fn is_found(p: &str, cwd: &str, suffix: &str) -> (r: bool)
    ensures
        r == (strictly_below(p@, cwd@) && ends_with(p@, suffix@)),
{
    match process_file_path(p, cwd) {
        Ok(q) => q.as_str().unicode_len() > 0 && text_ends_with(p, suffix),
        Err(_) => false,
    }
}

/// Every entry of a glob walk was readable.
pub open spec fn all_readable(entries: Seq<Result<Option<String>, glob::GlobError>>) -> bool {
    forall|i: int| 0 <= i < entries.len() ==> (#[trigger] entries[i]) is Ok
}

/// The readable UTF-8 paths among `entries`, in order, that lie strictly
/// below `cwd` and end in `.{ext}`.
pub open spec fn kept(
    entries: Seq<Result<Option<String>, glob::GlobError>>,
    cwd: Seq<char>,
    ext: Seq<char>,
) -> Seq<Seq<char>>
    decreases entries.len(),
{
    if entries.len() == 0 {
        Seq::empty()
    } else {
        let before = kept(entries.drop_last(), cwd, ext);
        match entries.last() {
            Ok(Some(p)) => if strictly_below(p@, cwd) && ends_with(p@, "."@ + ext) {
                before.push(p@)
            } else {
                before
            },
            _ => before,
        }
    }
}

/// The index of the first unreadable entry, if any.
fn first_unreadable(entries: &Vec<Result<Option<String>, glob::GlobError>>) -> (r: Option<usize>)
    ensures
        r is None <==> all_readable(entries@),
        r is Some ==> r->0 < entries@.len() && entries@[r->0 as int] is Err,
{
    let mut i: usize = 0;
    while i < entries.len()
        invariant
            i <= entries@.len(),
            forall|j: int| 0 <= j < i ==> (#[trigger] entries@[j]) is Ok,
        decreases entries@.len() - i,
    {
        if entries[i].is_err() {
            return Some(i);
        }
        i = i + 1;
    }
    None
}

/// The files that a glob walk for `.{ext}` under `cwd` found: the readable
/// UTF-8 paths that lie strictly below `cwd` and end in `.{ext}`, in glob's
/// order; fails with the first unreadable entry.
pub fn keep_found(
    entries: Vec<Result<Option<String>, glob::GlobError>>,
    cwd: &str,
    ext: &str,
) -> (r: Result<Vec<String>, ScanError>)
    ensures
        r is Ok <==> all_readable(entries@),
        r is Ok ==> texts(r->Ok_0@) == kept(entries@, cwd@, ext@),
        r is Ok ==> all_found(texts(r->Ok_0@), cwd@, ext@),
        r is Err ==> r matches Err(ScanError::Unreadable(_)),
{
    let mut entries = entries;
    match first_unreadable(&entries) {
        Some(i) => {
            return match entries.remove(i) {
                Err(e) => Err(ScanError::Unreadable(e)),
                Ok(_) => {
                    assert(false);
                    Ok(Vec::new())
                },
            };
        },
        None => {},
    }
    let mut suffix = String::from_str(".");
    suffix.append(ext);
    let mut paths: Vec<String> = Vec::new();
    let mut i: usize = 0;
    assert(entries@.take(0) =~= Seq::<Result<Option<String>, glob::GlobError>>::empty());
    while i < entries.len()
        invariant
            i <= entries@.len(),
            suffix@ == "."@ + ext@,
            texts(paths@) == kept(entries@.take(i as int), cwd@, ext@),
            all_found(texts(paths@), cwd@, ext@),
        decreases entries@.len() - i,
    {
        let ghost prefix = entries@.take(i + 1);
        assert(prefix.drop_last() =~= entries@.take(i as int));
        assert(prefix.last() == entries@[i as int]);
        match &entries[i] {
            Ok(Some(p)) => {
                if is_found(p.as_str(), cwd, suffix.as_str()) {
                    let ghost before = paths@;
                    paths.push(p.clone());
                    assert(texts(paths@) =~= texts(before).push(p@));
                }
            },
            _ => {},
        }
        i = i + 1;
    }
    assert(entries@.take(entries@.len() as int) =~= entries@);
    Ok(paths)
}

/// The paths below `cwd` whose names end in `.{ext}`, at any depth, in
/// glob's order (see `keep_found`); fails where glob refuses the pattern
/// `pattern_for(cwd, ext)` or reaches an unreadable entry.
fn files_with_extension(cwd: &str, ext: &str) -> (r: Result<Vec<String>, ScanError>)
    ensures
        r is Ok ==> glob_pattern_ok(pattern_for(cwd@, ext@)) && all_found(texts(r->Ok_0@), cwd@, ext@),
        !glob_pattern_ok(pattern_for(cwd@, ext@)) ==> r matches Err(ScanError::Pattern(_)),
        r matches Err(ScanError::Pattern(_)) ==> !glob_pattern_ok(pattern_for(cwd@, ext@)),
{
    let mut pattern = String::from_str(cwd);
    pattern.append("/**/*.");
    pattern.append(ext);
    match glob_paths(pattern.as_str()) {
        Ok(entries) => keep_found(entries, cwd, ext),
        Err(e) => Err(ScanError::Pattern(e)),
    }
}

/// Scans `cwd`: the well-known extra files present at its top, then the
/// files of each category at any depth; fails at the first category whose
/// pattern glob refuses or that reaches an unreadable entry.
fn scan_dir(cwd: &str) -> (r: Result<Scan, ScanError>)
    ensures
        r is Ok ==> patterns_ok(cwd@) && fits(r->Ok_0@, cwd@),
        !patterns_ok(cwd@) ==> r matches Err(ScanError::Pattern(_)) || r matches Err(
            ScanError::Unreadable(_),
        ),
        r matches Err(ScanError::Pattern(_)) ==> !patterns_ok(cwd@),
{
    let mut addenda: Vec<String> = Vec::new();
    note_if_present(&mut addenda, cwd, "README.md");
    note_if_present(&mut addenda, cwd, "README.txt");
    note_if_present(&mut addenda, cwd, "License.txt");
    note_if_present(&mut addenda, cwd, "License");
    let images = match files_with_extension(cwd, "png") {
        Ok(v) => v,
        Err(e) => return Err(e),
    };
    let scripts = match files_with_extension(cwd, "js") {
        Ok(v) => v,
        Err(e) => return Err(e),
    };
    let styles = match files_with_extension(cwd, "css") {
        Ok(v) => v,
        Err(e) => return Err(e),
    };
    let stories = match files_with_extension(cwd, "twee") {
        Ok(v) => v,
        Err(e) => return Err(e),
    };
    let source_maps = match files_with_extension(cwd, "js.map") {
        Ok(v) => v,
        Err(e) => return Err(e),
    };
    let scan = Scan { addenda, images, scripts, styles, stories, source_maps };
    proof {
        let w = well_known_addenda();
        assert(w[0] == "README.md"@);
        assert(w[1] == "README.txt"@);
        assert(w[2] == "License.txt"@);
        assert(w[3] == "License"@);
        assert(plausible_scan(scan@));
    }
    Ok(scan)
}

/// Whether `list` holds `s`.
fn list_contains(list: &Vec<String>, s: &String) -> (r: bool)
    ensures
        r == texts(list@).contains(s@),
{
    let mut i: usize = 0;
    while i < list.len()
        invariant
            i <= list@.len(),
            forall|j: int| 0 <= j < i ==> list@[j]@ != s@,
        decreases list@.len() - i,
    {
        if list[i] == *s {
            assert(texts(list@)[i as int] == s@);
            return true;
        }
        i = i + 1;
    }
    assert(!texts(list@).contains(s@)) by {
        if texts(list@).contains(s@) {
            let k = choose|k: int| 0 <= k < texts(list@).len() && texts(list@)[k] == s@;
            assert(list@[k]@ == s@);
        }
    }
    false
}

/// Appends `s` to `list` unless it is already there.
fn push_new(list: &mut Vec<String>, s: String)
    ensures
        texts(final(list)@) == (if texts(old(list)@).contains(s@) {
            texts(old(list)@)
        } else {
            texts(old(list)@).push(s@)
        }),
{
    if !list_contains(list, &s) {
        let ghost before = list@;
        list.push(s);
        assert(texts(list@) =~= texts(before).push(s@));
    }
}

/// Appends each of `names` that `list` does not hold yet.
fn add_names(list: &mut Vec<String>, names: &Vec<String>)
    ensures
        texts(final(list)@) == added(texts(old(list)@), texts(names@)),
{
    let ghost start = texts(list@);
    let mut i: usize = 0;
    while i < names.len()
        invariant
            i <= names@.len(),
            texts(list@) == added(start, texts(names@).take(i as int)),
        decreases names@.len() - i,
    {
        let ghost before = texts(list@);
        push_new(list, names[i].clone());
        assert(texts(names@).take(i + 1).drop_last() =~= texts(names@).take(i as int));
        i = i + 1;
    }
    assert(texts(names@).take(names@.len() as int) =~= texts(names@));
}

/// Appends, relative to `cwd`, each path of `found` that lies under `cwd`
/// and that `list` does not hold yet.
pub fn add_found(list: &mut Vec<String>, found: &Vec<String>, cwd: &str)
    ensures
        texts(final(list)@) == added(texts(old(list)@), relatives(texts(found@), cwd@)),
{
    let ghost start = texts(list@);
    let mut i: usize = 0;
    while i < found.len()
        invariant
            i <= found@.len(),
            texts(list@) == added(start, relatives(texts(found@).take(i as int), cwd@)),
        decreases found@.len() - i,
    {
        let ghost prefix = texts(found@).take(i + 1);
        let ghost done = relatives(texts(found@).take(i as int), cwd@);
        assert(prefix.drop_last() =~= texts(found@).take(i as int));
        assert(prefix.last() == found@[i as int]@);
        match process_file_path(found[i].as_str(), cwd) {
            Ok(rel) => {
                assert(relatives(prefix, cwd@) == done.push(rel@));
                assert(done.push(rel@).drop_last() =~= done);
                push_new(list, rel);
            },
            Err(_) => {},
        }
        i = i + 1;
    }
    assert(texts(found@).take(found@.len() as int) =~= texts(found@));
}

/// The list held in `o`, or an empty one.
fn list_or_empty(o: Option<Vec<String>>) -> (r: Vec<String>)
    ensures
        texts(r@) == or_empty(opt_texts(o)),
{
    match o {
        Some(v) => v,
        None => {
            let v = Vec::new();
            assert(texts(v@) =~= Seq::<Seq<char>>::empty());
            v
        },
    }
}

/// Whether `o` holds `s`; an absent list holds nothing.
fn opt_contains(o: &Option<Vec<String>>, s: &String) -> (r: bool)
    ensures
        r == or_empty(opt_texts(*o)).contains(s@),
{
    match o {
        Some(v) => list_contains(v, s),
        None => false,
    }
}

impl BootJson {
    /// The manifest with every optional field resolved: the version
    /// defaults to "1.0.0", each file list, the plugins and the dependencies
    /// to empty lists.
    pub fn with_defaults(self) -> (r: BootJson)
        ensures
            r@ == self@.with_defaults(),
    {
        let BootJson {
            name,
            version,
            addition_file,
            img_file_list,
            script_file_list,
            twee_file_list,
            style_file_list,
            addon_plugin,
            dependence_info,
        } = self;
        let version = match version {
            Some(v) => v,
            None => String::from_str("1.0.0"),
        };
        proof {
            reveal_strlit("1.0.0");
        }
        assert("1.0.0"@ =~= default_version());
        BootJson {
            name,
            version: Some(version),
            addition_file: Some(list_or_empty(addition_file)),
            img_file_list: Some(list_or_empty(img_file_list)),
            script_file_list: Some(list_or_empty(script_file_list)),
            twee_file_list: Some(list_or_empty(twee_file_list)),
            style_file_list: Some(list_or_empty(style_file_list)),
            addon_plugin: match addon_plugin {
                Some(v) => Some(v),
                None => Some(Vec::new()),
            },
            dependence_info: match dependence_info {
                Some(v) => Some(v),
                None => Some(Vec::new()),
            },
        }
    }

    /// Whether the relative path `value` belongs to the package: the
    /// manifest file always does, any other path when one of the five lists
    /// holds it with forward slashes.
    pub fn in_list(&self, value: &str) -> (r: bool)
        ensures
            r == self@.is_member(value@),
            value@ == manifest_file_name() ==> r,
    {
        proof {
            reveal_strlit("boot.json");
        }
        assert("boot.json"@ =~= manifest_file_name());
        if same_text(value, "boot.json") {
            return true;
        }
        let n = normalize_separators(value);
        opt_contains(&self.img_file_list, &n) || opt_contains(&self.script_file_list, &n)
            || opt_contains(&self.twee_file_list, &n) || opt_contains(&self.style_file_list, &n)
            || opt_contains(&self.addition_file, &n)
    }

    /// Merges what a scan of `cwd` found into the lists: the well-known
    /// extra files, then each category's matches relative to `cwd`, each
    /// appended only where its list does not hold it yet. Absent lists,
    /// plugins and dependencies become empty ones.
    pub fn apply_scan(&mut self, scan: &Scan, cwd: &str)
        ensures
            final(self)@ == old(self)@.reconciled(scan@, cwd@),
    {
        let mut addenda = list_or_empty(self.addition_file.take());
        add_names(&mut addenda, &scan.addenda);
        add_found(&mut addenda, &scan.source_maps, cwd);
        self.addition_file = Some(addenda);

        let mut images = list_or_empty(self.img_file_list.take());
        add_found(&mut images, &scan.images, cwd);
        self.img_file_list = Some(images);

        let mut scripts = list_or_empty(self.script_file_list.take());
        add_found(&mut scripts, &scan.scripts, cwd);
        self.script_file_list = Some(scripts);

        let mut styles = list_or_empty(self.style_file_list.take());
        add_found(&mut styles, &scan.styles, cwd);
        self.style_file_list = Some(styles);

        let mut stories = list_or_empty(self.twee_file_list.take());
        add_found(&mut stories, &scan.stories, cwd);
        self.twee_file_list = Some(stories);

        if self.addon_plugin.is_none() {
            self.addon_plugin = Some(Vec::new());
        }
        if self.dependence_info.is_none() {
            self.dependence_info = Some(Vec::new());
        }
        assert(final(self)@ =~= old(self)@.reconciled(scan@, cwd@));
    }

    /// Gives each absent list, the plugins and the dependencies an empty
    /// list.
    pub fn prepare(&mut self)
        ensures
            final(self)@ == old(self)@.prepared(),
    {
        let addenda = list_or_empty(self.addition_file.take());
        self.addition_file = Some(addenda);
        let images = list_or_empty(self.img_file_list.take());
        self.img_file_list = Some(images);
        let scripts = list_or_empty(self.script_file_list.take());
        self.script_file_list = Some(scripts);
        let styles = list_or_empty(self.style_file_list.take());
        self.style_file_list = Some(styles);
        let stories = list_or_empty(self.twee_file_list.take());
        self.twee_file_list = Some(stories);
        if self.addon_plugin.is_none() {
            self.addon_plugin = Some(Vec::new());
        }
        if self.dependence_info.is_none() {
            self.dependence_info = Some(Vec::new());
        }
        assert(final(self)@ =~= old(self)@.prepared());
    }

    /// Scans `cwd` and merges what it finds into the lists (see
    /// `apply_scan`): the well-known extra files present at its top, and at
    /// any depth the `.png` images, `.js` scripts, `.css` styles, `.twee`
    /// story scripts and `.js.map` source maps. Fails where glob refuses one
    /// of the patterns or reaches an unreadable entry; the manifest then only
    /// gains its absent lists, empty.
    pub fn update_file_lists(&mut self, cwd: &str) -> (r: Result<(), ScanError>)
        ensures
            r is Ok ==> exists|scan: ScanView|
                fits(scan, cwd@) && #[trigger] old(self)@.reconciled(scan, cwd@) == final(self)@,
            r is Ok ==> patterns_ok(cwd@),
            r is Err ==> final(self)@ == old(self)@.prepared(),
            !patterns_ok(cwd@) ==> r is Err,
            r matches Err(ScanError::Pattern(_)) ==> !patterns_ok(cwd@),
    {
        match scan_dir(cwd) {
            Ok(scan) => {
                self.apply_scan(&scan, cwd);
                Ok(())
            },
            Err(e) => {
                self.prepare();
                Err(e)
            },
        }
    }
}

/// Every path of `found` ends up in `added(list, found)`.
proof fn lemma_added_holds_found(list: Seq<Seq<char>>, found: Seq<Seq<char>>)
    ensures
        forall|k: int| 0 <= k < found.len() ==> added(list, found).contains(#[trigger] found[k]),
    decreases found.len(),
{
    if found.len() > 0 {
        let before = added(list, found.drop_last());
        lemma_added_holds_found(list, found.drop_last());
        assert forall|k: int| 0 <= k < found.len() implies added(list, found).contains(
            #[trigger] found[k],
        ) by {
            if k < found.len() - 1 {
                assert(found.drop_last()[k] == found[k]);
                assert(before.contains(found[k]));
                if !before.contains(found.last()) {
                    let j = choose|j: int| 0 <= j < before.len() && before[j] == found[k];
                    assert(before.push(found.last())[j] == found[k]);
                }
            } else {
                if !before.contains(found.last()) {
                    assert(before.push(found.last())[before.len() as int] == found.last());
                }
            }
        }
    }
}

/// Everything in `list` stays in `added(list, found)`.
proof fn lemma_added_keeps(list: Seq<Seq<char>>, found: Seq<Seq<char>>, x: Seq<char>)
    requires
        list.contains(x),
    ensures
        added(list, found).contains(x),
    decreases found.len(),
{
    if found.len() > 0 {
        let before = added(list, found.drop_last());
        lemma_added_keeps(list, found.drop_last(), x);
        if !before.contains(found.last()) {
            let j = choose|j: int| 0 <= j < before.len() && before[j] == x;
            assert(before.push(found.last())[j] == x);
        }
    }
}

/// Adding paths that `list` already holds leaves it as it is.
proof fn lemma_added_nothing_new(list: Seq<Seq<char>>, found: Seq<Seq<char>>)
    requires
        forall|k: int| 0 <= k < found.len() ==> list.contains(#[trigger] found[k]),
    ensures
        added(list, found) == list,
    decreases found.len(),
{
    if found.len() > 0 {
        assert forall|k: int| 0 <= k < found.drop_last().len() implies list.contains(
            #[trigger] found.drop_last()[k],
        ) by {
            assert(found.drop_last()[k] == found[k]);
        }
        lemma_added_nothing_new(list, found.drop_last());
        assert(list.contains(found[found.len() - 1]));
    }
}

/// Merging paths twice gives what merging them once gives.
proof fn lemma_added_twice(list: Seq<Seq<char>>, found: Seq<Seq<char>>)
    ensures
        added(added(list, found), found) == added(list, found),
{
    lemma_added_holds_found(list, found);
    lemma_added_nothing_new(added(list, found), found);
}

/// Reconciling a manifest a second time against the same scan of the same
/// directory adds nothing: the lists stay as the first run left them.
pub proof fn lemma_reconcile_idempotent(m: ManifestView, scan: ScanView, cwd: Seq<char>)
    ensures
        m.reconciled(scan, cwd).reconciled(scan, cwd) == m.reconciled(scan, cwd),
{
    let once = m.reconciled(scan, cwd);
    let names = scan.addenda;
    let maps = relatives(scan.source_maps, cwd);
    let with_names = added(or_empty(m.addenda), names);
    let addenda = added(with_names, maps);
    lemma_added_holds_found(or_empty(m.addenda), names);
    lemma_added_holds_found(with_names, maps);
    assert forall|k: int| 0 <= k < names.len() implies addenda.contains(#[trigger] names[k]) by {
        lemma_added_keeps(with_names, maps, names[k]);
    }
    lemma_added_nothing_new(addenda, names);
    lemma_added_nothing_new(addenda, maps);
    lemma_added_twice(or_empty(m.images), relatives(scan.images, cwd));
    lemma_added_twice(or_empty(m.scripts), relatives(scan.scripts, cwd));
    lemma_added_twice(or_empty(m.stories), relatives(scan.stories, cwd));
    lemma_added_twice(or_empty(m.styles), relatives(scan.styles, cwd));
    assert(once.reconciled(scan, cwd) =~= once);
}

/// What `added(list, found)` holds comes from `list` or from `found`.
proof fn lemma_added_from(list: Seq<Seq<char>>, found: Seq<Seq<char>>, x: Seq<char>)
    requires
        added(list, found).contains(x),
    ensures
        list.contains(x) || found.contains(x),
    decreases found.len(),
{
    if found.len() > 0 {
        let before = added(list, found.drop_last());
        if before.contains(x) {
            lemma_added_from(list, found.drop_last(), x);
            if found.drop_last().contains(x) {
                let k = choose|k: int| 0 <= k < found.drop_last().len() && found.drop_last()[k] == x;
                assert(found[k] == x);
            }
        } else {
            assert(x == found.last());
            assert(found[found.len() - 1] == x);
        }
    }
}

/// The relative paths of files found strictly below `cwd` are clean.
proof fn lemma_relatives_clean(found: Seq<Seq<char>>, cwd: Seq<char>, ext: Seq<char>, x: Seq<char>)
    requires
        components(cwd).len() > 0,
        all_found(found, cwd, ext),
        relatives(found, cwd).contains(x),
    ensures
        clean_relative(x),
    decreases found.len(),
{
    let before = relatives(found.drop_last(), cwd);
    assert forall|k: int| 0 <= k < found.drop_last().len() implies strictly_below(
        #[trigger] found.drop_last()[k],
        cwd,
    ) && ends_with(found.drop_last()[k], "."@ + ext) by {
        assert(found.drop_last()[k] == found[k]);
    }
    if before.contains(x) {
        lemma_relatives_clean(found.drop_last(), cwd, ext, x);
    } else {
        assert(strictly_below(found[found.len() - 1], cwd));
        lemma_relative_has_no_backslash(found.last(), cwd);
    }
}

/// A list after merging: each entry was there before or is clean.
proof fn lemma_merge_clean(list: Seq<Seq<char>>, found: Seq<Seq<char>>, cwd: Seq<char>, ext: Seq<char>)
    requires
        components(cwd).len() > 0,
        all_found(found, cwd, ext),
    ensures
        forall|x: Seq<char>|
            #[trigger] added(list, relatives(found, cwd)).contains(x) ==> list.contains(x)
                || clean_relative(x),
{
    assert forall|x: Seq<char>| #[trigger]
        added(list, relatives(found, cwd)).contains(x) implies list.contains(x) || clean_relative(
        x,
    ) by {
        lemma_added_from(list, relatives(found, cwd), x);
        if !list.contains(x) {
            lemma_relatives_clean(found, cwd, ext, x);
        }
    }
}

/// Every path that reconciling against a scan of `cwd` adds to a file list
/// is a non-empty relative path, not starting at the root and without
/// backslashes, or, for the extra files, one of the well-known names. The
/// directory must name at least one component (the empty text names none).
pub proof fn lemma_reconcile_adds_relative_paths(m: ManifestView, scan: ScanView, cwd: Seq<char>)
    requires
        components(cwd).len() > 0,
        fits(scan, cwd),
    ensures
        ({
            let r = m.reconciled(scan, cwd);
            &&& forall|x: Seq<char>| #[trigger]
                or_empty(r.images).contains(x) ==> or_empty(m.images).contains(x) || clean_relative(x)
            &&& forall|x: Seq<char>| #[trigger]
                or_empty(r.scripts).contains(x) ==> or_empty(m.scripts).contains(x) || clean_relative(
                    x,
                )
            &&& forall|x: Seq<char>| #[trigger]
                or_empty(r.styles).contains(x) ==> or_empty(m.styles).contains(x) || clean_relative(x)
            &&& forall|x: Seq<char>| #[trigger]
                or_empty(r.stories).contains(x) ==> or_empty(m.stories).contains(x) || clean_relative(
                    x,
                )
            &&& forall|x: Seq<char>| #[trigger]
                or_empty(r.addenda).contains(x) ==> or_empty(m.addenda).contains(x)
                    || well_known_addenda().contains(x) || clean_relative(x)
        }),
{
    lemma_merge_clean(or_empty(m.images), scan.images, cwd, "png"@);
    lemma_merge_clean(or_empty(m.scripts), scan.scripts, cwd, "js"@);
    lemma_merge_clean(or_empty(m.styles), scan.styles, cwd, "css"@);
    lemma_merge_clean(or_empty(m.stories), scan.stories, cwd, "twee"@);
    let with_names = added(or_empty(m.addenda), scan.addenda);
    lemma_merge_clean(with_names, scan.source_maps, cwd, "js.map"@);
    assert forall|x: Seq<char>| #[trigger] with_names.contains(x) implies or_empty(
        m.addenda,
    ).contains(x) || well_known_addenda().contains(x) by {
        lemma_added_from(or_empty(m.addenda), scan.addenda, x);
        if scan.addenda.contains(x) {
            let k = choose|k: int| 0 <= k < scan.addenda.len() && scan.addenda[k] == x;
            assert(well_known_addenda().contains(scan.addenda[k]));
        }
    }
}

} // verus!

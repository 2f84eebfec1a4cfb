//! Which files of a mod's working directory go into its package, and the
//! name of the package's archive.
use vstd::prelude::*;
use crate::boot_json::{default_version, BootJson, ManifestView};
use crate::path::same_text;

verus! {

/// An entry of a working directory: its path relative to the directory,
/// with forward slashes, and whether it is a directory.
pub struct WalkEntry {
    pub path: String,
    pub is_dir: bool,
}

/// The path `f` lies inside the directory `d`, at any depth.
pub open spec fn under(f: Seq<char>, d: Seq<char>) -> bool {
    &&& d.len() < f.len()
    &&& f.subrange(0, d.len() as int) == d
    &&& f[d.len() as int] == '/'
}

/// No regular file that stays (`gone` false) lies inside `dir`.
pub open spec fn empty_after(entries: Seq<WalkEntry>, gone: Seq<bool>, dir: Seq<char>) -> bool {
    forall|j: int|
        0 <= j < entries.len() && !entries[j].is_dir && !gone[j] ==> !under(
            #[trigger] entries[j].path@,
            dir,
        )
}

/// Some regular file inside `dir` belongs to the package.
pub open spec fn holds_member_file(m: ManifestView, entries: Seq<WalkEntry>, dir: Seq<char>) -> bool {
    exists|j: int|
        0 <= j < entries.len() && !entries[j].is_dir && m.is_member(#[trigger] entries[j].path@)
            && under(entries[j].path@, dir)
}

/// Whether pruning removes entry `i`: a file outside the package, or a
/// directory that holds no file of the package.
pub open spec fn removed(m: ManifestView, entries: Seq<WalkEntry>, i: int) -> bool {
    if entries[i].is_dir {
        !holds_member_file(m, entries, entries[i].path@)
    } else {
        !m.is_member(entries[i].path@)
    }
}

/// Entry `i` is still on disk once the plan ran: neither it nor a
/// directory holding it was removed.
pub open spec fn survives(entries: Seq<WalkEntry>, plan: Seq<bool>, i: int) -> bool {
    &&& !plan[i]
    &&& forall|j: int|
        0 <= j < entries.len() && entries[j].is_dir && under(entries[i].path@, entries[j].path@)
            ==> !#[trigger] plan[j]
}

/// Whether the path `f` lies inside the directory `d`.
pub fn is_under(f: &str, d: &str) -> (r: bool)
    ensures
        r == under(f@, d@),
{
    let fl = f.unicode_len();
    let dl = d.unicode_len();
    if dl >= fl {
        return false;
    }
    let head = f.substring_char(0, dl);
    same_text(head, d) && f.get_char(dl) == '/'
}

/// `dir` is the path of a directory among `entries`.
pub open spec fn is_dir_entry(entries: Seq<WalkEntry>, dir: Seq<char>) -> bool {
    exists|k: int| 0 <= k < entries.len() && entries[k].is_dir && #[trigger] entries[k].path@ == dir
}

/// Whether `dir` is the path of a directory among `entries`.
fn has_dir_entry(entries: &Vec<WalkEntry>, dir: &str) -> (r: bool)
    ensures
        r == is_dir_entry(entries@, dir@),
{
    let mut k: usize = 0;
    while k < entries.len()
        invariant
            k <= entries@.len(),
            forall|m: int| 0 <= m < k ==> !(entries@[m].is_dir && #[trigger] entries@[m].path@ == dir@),
        decreases entries@.len() - k,
    {
        if entries[k].is_dir && same_text(entries[k].path.as_str(), dir) {
            assert(entries@[k as int].path@ == dir@);
            return true;
        }
        k = k + 1;
    }
    false
}

/// Whether `dir` is a directory among `entries` inside which no regular
/// file that stays (`gone` false) lies; a file or an unknown path is never
/// empty.
pub fn check_empty_dirs(entries: &Vec<WalkEntry>, gone: &Vec<bool>, dir: &str) -> (r: bool)
    requires
        gone@.len() == entries@.len(),
    ensures
        r == (is_dir_entry(entries@, dir@) && empty_after(entries@, gone@, dir@)),
{
    if !has_dir_entry(entries, dir) {
        return false;
    }
    let mut j: usize = 0;
    while j < entries.len()
        invariant
            gone@.len() == entries@.len(),
            j <= entries@.len(),
            forall|k: int|
                0 <= k < j && !entries@[k].is_dir && !gone@[k] ==> !under(
                    #[trigger] entries@[k].path@,
                    dir@,
                ),
        decreases entries@.len() - j,
    {
        if !entries[j].is_dir && !gone[j] && is_under(entries[j].path.as_str(), dir) {
            return false;
        }
        j = j + 1;
    }
    true
}

/// For each entry, whether pruning removes it: files outside the package,
/// then directories left with no file of the package inside.
pub fn prune_plan(manifest: &BootJson, entries: &Vec<WalkEntry>) -> (r: Vec<bool>)
    ensures
        r@.len() == entries@.len(),
        forall|i: int| 0 <= i < entries@.len() ==> r@[i] == removed(manifest@, entries@, i),
{
    let mut gone: Vec<bool> = Vec::new();
    let mut i: usize = 0;
    while i < entries.len()
        invariant
            i <= entries@.len(),
            gone@.len() == i,
            forall|k: int|
                0 <= k < i ==> gone@[k] == (!entries@[k].is_dir && !manifest@.is_member(
                    entries@[k].path@,
                )),
        decreases entries@.len() - i,
    {
        let outside = !entries[i].is_dir && !manifest.in_list(entries[i].path.as_str());
        gone.push(outside);
        i = i + 1;
    }
    let mut plan: Vec<bool> = Vec::new();
    let mut i: usize = 0;
    while i < entries.len()
        invariant
            i <= entries@.len(),
            gone@.len() == entries@.len(),
            plan@.len() == i,
            forall|k: int|
                0 <= k < entries@.len() ==> gone@[k] == (!entries@[k].is_dir
                    && !manifest@.is_member(entries@[k].path@)),
            forall|k: int| 0 <= k < i ==> plan@[k] == removed(manifest@, entries@, k),
        decreases entries@.len() - i,
    {
        if entries[i].is_dir {
            let empty = check_empty_dirs(entries, &gone, entries[i].path.as_str());
            proof {
                let d = entries@[i as int].path@;
                assert(is_dir_entry(entries@, d));
                if holds_member_file(manifest@, entries@, d) {
                    let j = choose|j: int|
                        0 <= j < entries@.len() && !entries@[j].is_dir && manifest@.is_member(
                            #[trigger] entries@[j].path@,
                        ) && under(entries@[j].path@, d);
                    assert(!gone@[j]);
                }
            }
            plan.push(empty);
        } else {
            plan.push(gone[i]);
        }
        i = i + 1;
    }
    plan
}

/// Pruning keeps exactly the package: a regular file is still on disk after
/// the plan ran if and only if the manifest counts it as a member.
pub proof fn lemma_prune_conservative(m: ManifestView, entries: Seq<WalkEntry>, plan: Seq<bool>)
    requires
        plan.len() == entries.len(),
        forall|i: int| 0 <= i < entries.len() ==> plan[i] == removed(m, entries, i),
    ensures
        forall|i: int|
            0 <= i < entries.len() && !entries[i].is_dir ==> (survives(entries, plan, i)
                <==> m.is_member(#[trigger] entries[i].path@)),
{
    assert forall|i: int|
        0 <= i < entries.len() && !entries[i].is_dir && m.is_member(
            #[trigger] entries[i].path@,
        ) implies survives(entries, plan, i) by {
        assert forall|j: int|
            0 <= j < entries.len() && entries[j].is_dir && under(
                entries[i].path@,
                entries[j].path@,
            ) implies !#[trigger] plan[j] by {
            assert(holds_member_file(m, entries, entries[j].path@));
        }
    }
}

/// `s` with each occurrence of `pat`, read from the left, replaced by `rep`;
/// an empty `pat` occurs before each character and at the end.
pub open spec fn replaced(s: Seq<char>, pat: Seq<char>, rep: Seq<char>) -> Seq<char>
    decreases s.len(),
{
    if pat.len() == 0 {
        if s.len() == 0 {
            rep
        } else {
            rep + seq![s[0]] + replaced(s.skip(1), pat, rep)
        }
    } else if s.len() < pat.len() {
        s
    } else if s.subrange(0, pat.len() as int) == pat {
        rep + replaced(s.skip(pat.len() as int), pat, rep)
    } else {
        seq![s[0]] + replaced(s.skip(1), pat, rep)
    }
}

/// `s` with each occurrence of `pat`, read from the left, replaced by `rep`.
pub fn replace_text(s: &str, pat: &str, rep: &str) -> (r: String)
    ensures
        r@ == replaced(s@, pat@, rep@),
{
    let n = s.unicode_len();
    let k = pat.unicode_len();
    let mut out = String::new();
    let mut i: usize = 0;
    assert(s@.skip(0) =~= s@);
    assert(out@ + replaced(s@, pat@, rep@) =~= replaced(s@, pat@, rep@));
    if k == 0 {
        while i < n
            invariant
                n == s@.len(),
                k == pat@.len(),
                k == 0,
                i <= n,
                out@ + replaced(s@.skip(i as int), pat@, rep@) == replaced(s@, pat@, rep@),
            decreases n - i,
        {
            let ghost tail = s@.skip(i as int);
            let one = s.substring_char(i, i + 1);
            assert(one@ =~= seq![tail[0]]);
            assert(tail.skip(1) =~= s@.skip(i + 1));
            out.append(rep);
            out.append(one);
            assert(out@ + replaced(s@.skip(i + 1), pat@, rep@) =~= replaced(s@, pat@, rep@));
            i = i + 1;
        }
        assert(s@.skip(n as int) =~= Seq::<char>::empty());
        out.append(rep);
        return out;
    }
    while i < n
        invariant
            n == s@.len(),
            k == pat@.len(),
            k > 0,
            i <= n,
            out@ + replaced(s@.skip(i as int), pat@, rep@) == replaced(s@, pat@, rep@),
        decreases n - i,
    {
        let ghost tail = s@.skip(i as int);
        if k <= n - i && same_text(s.substring_char(i, i + k), pat) {
            assert(tail.subrange(0, k as int) =~= s@.subrange(i as int, i + k));
            assert(tail.skip(k as int) =~= s@.skip(i + k));
            out.append(rep);
            i = i + k;
        } else {
            let one = s.substring_char(i, i + 1);
            assert(one@ =~= seq![tail[0]]);
            assert(tail.skip(1) =~= s@.skip(i + 1));
            if k <= n - i {
                assert(tail.subrange(0, k as int) =~= s@.subrange(i as int, i + k));
            } else {
                assert(tail =~= seq![tail[0]] + tail.skip(1));
            }
            out.append(one);
            i = i + 1;
        }
    }
    assert(s@.skip(n as int) =~= Seq::<char>::empty());
    assert(out@ + Seq::<char>::empty() =~= out@);
    out
}

/// The archive name for a manifest's version: the version, or "1.0.0"
/// where it names none.
pub open spec fn version_or_default(m: ManifestView) -> Seq<char> {
    match m.version {
        Some(v) => v,
        None => default_version(),
    }
}

/// The archive file name that `template` gives for `manifest`: `{name}`
/// replaced by its name, then `{ver}` and `{version}` by its version.
pub open spec fn archive_name_of(template: Seq<char>, m: ManifestView) -> Seq<char> {
    replaced(
        replaced(replaced(template, "{name}"@, m.name), "{ver}"@, version_or_default(m)),
        "{version}"@,
        version_or_default(m),
    )
}

/// The file name of a manifest's archive, from a template holding `{name}`
/// and `{ver}` or `{version}`.
pub fn archive_file_name(template: &str, manifest: &BootJson) -> (r: String)
    ensures
        r@ == archive_name_of(template@, manifest@),
{
    proof {
        reveal_strlit("{name}");
        reveal_strlit("{ver}");
        reveal_strlit("{version}");
        reveal_strlit("1.0.0");
    }
    assert("1.0.0"@ =~= default_version());
    let with_name = replace_text(template, "{name}", manifest.name.as_str());
    let version = match &manifest.version {
        Some(v) => v.as_str(),
        None => "1.0.0",
    };
    let with_ver = replace_text(with_name.as_str(), "{ver}", version);
    replace_text(with_ver.as_str(), "{version}", version)
}

} // verus!

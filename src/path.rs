//! Relative paths with a single separator.
use vstd::prelude::*;

verus! {

/// `s` with every backslash turned into a forward slash.
pub open spec fn slashed(s: Seq<char>) -> Seq<char> {
    Seq::new(s.len(), |i: int| if s[i] == '\\' { '/' } else { s[i] })
}

/// The character sequences of a list of strings.
pub open spec fn texts(v: Seq<String>) -> Seq<Seq<char>> {
    v.map_values(|s: String| s@)
}

/// The components read so far once the piece `cur` ends at a separator:
/// an empty first piece marks the root, a `.` counts only as the first
/// piece, and other empty pieces count not at all.
pub open spec fn flush(done: Seq<Seq<char>>, cur: Seq<char>, first: bool) -> Seq<Seq<char>> {
    if cur.len() == 0 {
        if first {
            done.push(cur)
        } else {
            done
        }
    } else if cur == seq!['.'] {
        if first {
            done.push(cur)
        } else {
            done
        }
    } else {
        done.push(cur)
    }
}

/// The components once the text ends with the piece `cur`.
pub open spec fn flush_end(done: Seq<Seq<char>>, cur: Seq<char>, first: bool) -> Seq<Seq<char>> {
    if cur.len() == 0 {
        done
    } else {
        flush(done, cur, first)
    }
}

/// Reading `s` from the left: the components so far, the piece being read,
/// and whether that piece is the first.
pub open spec fn comp_state(s: Seq<char>) -> (Seq<Seq<char>>, Seq<char>, bool)
    decreases s.len(),
{
    if s.len() == 0 {
        (Seq::empty(), Seq::empty(), true)
    } else {
        let st = comp_state(s.drop_last());
        if s.last() == '/' {
            (flush(st.0, st.1, st.2), Seq::empty(), false)
        } else {
            (st.0, st.1.push(s.last()), st.2)
        }
    }
}

/// The components of a path, either separator accepted: its pieces between
/// separators, without empty pieces and without `.` but in front, and with
/// an empty component in front where the path starts at the root.
pub open spec fn components(s: Seq<char>) -> Seq<Seq<char>> {
    let st = comp_state(slashed(s));
    flush_end(st.0, st.1, st.2)
}

/// Components written out with `/` between them; the root alone is `/`.
pub open spec fn join(cs: Seq<Seq<char>>) -> Seq<char> {
    if cs == seq![Seq::<char>::empty()] {
        seq!['/']
    } else {
        join_plain(cs)
    }
}

/// Components written out with `/` between them.
pub open spec fn join_plain(cs: Seq<Seq<char>>) -> Seq<char>
    decreases cs.len(),
{
    if cs.len() == 0 {
        Seq::empty()
    } else if cs.len() == 1 {
        cs[0]
    } else {
        join_plain(cs.drop_last()) + seq!['/'] + cs.last()
    }
}

/// The components of `base` lead those of `path`.
pub open spec fn leads(path: Seq<char>, base: Seq<char>) -> bool {
    let pc = components(path);
    let bc = components(base);
    bc.len() <= pc.len() && pc.take(bc.len() as int) == bc
}

/// The relative path of `path` under `base`: the components of `path` after
/// those of `base`, with `/` between them; nothing where the components of
/// `base` do not lead those of `path`.
pub open spec fn relative_of(path: Seq<char>, base: Seq<char>) -> Option<Seq<char>> {
    if leads(path, base) {
        Some(join(components(path).skip(components(base).len() as int)))
    } else {
        None
    }
}

/// Failure to relativize a path.
pub enum PathError {
    /// `path` does not start with the components of `base`.
    PrefixMismatch { path: String, base: String },
}

impl PathError {
    /// The error for `path` not led by `base`.
    pub fn mismatch(path: &str, base: &str) -> (r: PathError)
        ensures
            r->path@ == path@,
            r->base@ == base@,
    {
        PathError::PrefixMismatch { path: String::from_str(path), base: String::from_str(base) }
    }

    /// The message text of the error.
    pub fn to_string(&self) -> (r: String)
        ensures
            match self {
                PathError::PrefixMismatch { path, base } => r@ == "Failed to strip prefix: "@ + base@
                    + " from path: "@ + path@,
            },
    {
        match self {
            PathError::PrefixMismatch { path, base } => {
                let mut r = String::from_str("Failed to strip prefix: ");
                r.append(base.as_str());
                r.append(" from path: ");
                r.append(path.as_str());
                r
            },
        }
    }
}

/// Character-wise equality of two strings.
pub fn same_text(a: &str, b: &str) -> (r: bool)
    ensures
        r == (a@ == b@),
{
    let n = a.unicode_len();
    if n != b.unicode_len() {
        return false;
    }
    let mut i: usize = 0;
    while i < n
        invariant
            n == a@.len(),
            n == b@.len(),
            i <= n,
            a@.subrange(0, i as int) == b@.subrange(0, i as int),
        decreases n - i,
    {
        if a.get_char(i) != b.get_char(i) {
            return false;
        }
        assert(a@.subrange(0, i + 1) =~= a@.subrange(0, i as int).push(a@[i as int]));
        assert(b@.subrange(0, i + 1) =~= b@.subrange(0, i as int).push(b@[i as int]));
        i = i + 1;
    }
    assert(a@ =~= a@.subrange(0, n as int));
    assert(b@ =~= b@.subrange(0, n as int));
    true
}

/// `s` ends with `suffix`.
pub open spec fn ends_with(s: Seq<char>, suffix: Seq<char>) -> bool {
    suffix.len() <= s.len() && s.skip(s.len() - suffix.len()) == suffix
}

/// Whether `s` ends with `suffix`.
pub fn text_ends_with(s: &str, suffix: &str) -> (r: bool)
    ensures
        r == ends_with(s@, suffix@),
{
    let n = s.unicode_len();
    let k = suffix.unicode_len();
    if k > n {
        return false;
    }
    let tail = s.substring_char(n - k, n);
    assert(tail@ =~= s@.skip(n - k));
    same_text(tail, suffix)
}

/// `s` with every backslash replaced by a forward slash.
pub fn normalize_separators(s: &str) -> (r: String)
    ensures
        r@ == slashed(s@),
{
    let n = s.unicode_len();
    let mut r = String::new();
    let mut i: usize = 0;
    while i < n
        invariant
            n == s@.len(),
            i <= n,
            r@ == slashed(s@).subrange(0, i as int),
        decreases n - i,
    {
        let c = s.get_char(i);
        if c == '\\' {
            r.append("/");
            proof {
                reveal_strlit("/");
            }
            assert("/"@ =~= seq!['/']);
        } else {
            let one = s.substring_char(i, i + 1);
            assert(one@ =~= seq![c]);
            r.append(one);
        }
        assert(slashed(s@).subrange(0, i + 1) =~= slashed(s@).subrange(0, i as int).push(
            slashed(s@)[i as int],
        ));
        i = i + 1;
    }
    assert(slashed(s@) =~= slashed(s@).subrange(0, n as int));
    r
}

/// The components of `s`, either separator accepted.
pub fn path_components(s: &str) -> (r: Vec<String>)
    ensures
        texts(r@) == components(s@),
{
    let t = normalize_separators(s);
    let ghost ts = t@;
    let n = t.as_str().unicode_len();
    let mut done: Vec<String> = Vec::new();
    let mut cur = String::new();
    let mut first = true;
    let mut i: usize = 0;
    proof {
        reveal_strlit(".");
    }
    assert(ts.take(0) =~= Seq::<char>::empty());
    while i < n
        invariant
            ts == slashed(s@),
            t@ == ts,
            n == ts.len(),
            i <= n,
            "."@ == seq!['.'],
            (texts(done@), cur@, first) == comp_state(ts.take(i as int)),
        decreases n - i,
    {
        let c = t.as_str().get_char(i);
        assert(ts.take(i + 1).drop_last() =~= ts.take(i as int));
        let ghost before = texts(done@);
        if c == '/' {
            if cur.as_str().unicode_len() == 0 {
                if first {
                    done.push(cur);
                    assert(texts(done@) =~= before.push(Seq::<char>::empty()));
                }
            } else if same_text(cur.as_str(), ".") {
                if first {
                    let ghost cv = cur@;
                    done.push(cur);
                    assert(texts(done@) =~= before.push(cv));
                }
            } else {
                let ghost cv = cur@;
                done.push(cur);
                assert(texts(done@) =~= before.push(cv));
            }
            cur = String::new();
            first = false;
        } else {
            let one = t.as_str().substring_char(i, i + 1);
            assert(one@ =~= seq![c]);
            cur.append(one);
        }
        i = i + 1;
    }
    assert(ts.take(n as int) =~= ts);
    if cur.as_str().unicode_len() > 0 {
        if same_text(cur.as_str(), ".") {
            if first {
                let ghost before = texts(done@);
                let ghost cv = cur@;
                done.push(cur);
                assert(texts(done@) =~= before.push(cv));
            }
        } else {
            let ghost before = texts(done@);
            let ghost cv = cur@;
            done.push(cur);
            assert(texts(done@) =~= before.push(cv));
        }
    }
    done
}

/// The components `cs[from..]` with `/` between them.
pub fn join_components(cs: &Vec<String>, from: usize) -> (r: String)
    requires
        from <= cs@.len(),
    ensures
        r@ == join(texts(cs@).skip(from as int)),
{
    let n = cs.len();
    if from == n {
        assert(texts(cs@).skip(from as int) =~= Seq::<Seq<char>>::empty());
        return String::new();
    }
    if from + 1 == n && cs[from].as_str().unicode_len() == 0 {
        proof {
            reveal_strlit("/");
        }
        assert(cs@[from as int]@ =~= Seq::<char>::empty());
        assert(texts(cs@).skip(from as int) =~= seq![Seq::<char>::empty()]);
        return String::from_str("/");
    }
    proof {
        if texts(cs@).skip(from as int) == seq![Seq::<char>::empty()] {
            assert(texts(cs@).skip(from as int).len() == 1);
            assert(texts(cs@).skip(from as int)[0] == cs@[from as int]@);
        }
    }
    let mut out = cs[from].clone();
    let mut j: usize = from + 1;
    assert(texts(cs@).subrange(from as int, j as int) =~= seq![cs@[from as int]@]);
    while j < n
        invariant
            from < j <= n,
            n == cs@.len(),
            out@ == join_plain(texts(cs@).subrange(from as int, j as int)),
        decreases n - j,
    {
        proof {
            reveal_strlit("/");
        }
        let ghost part = texts(cs@).subrange(from as int, j + 1);
        assert(part.drop_last() =~= texts(cs@).subrange(from as int, j as int));
        out.append("/");
        out.append(cs[j].as_str());
        assert(out@ =~= join_plain(part));
        j = j + 1;
    }
    assert(texts(cs@).subrange(from as int, n as int) =~= texts(cs@).skip(from as int));
    out
}

/// The path of `path` relative to the directory `base`, read by
/// components with either separator, written with `/`; fails where the
/// components of `base` do not lead those of `path`.
pub fn process_file_path(path: &str, base: &str) -> (r: Result<String, PathError>)
    ensures
        match r {
            Ok(rel) => relative_of(path@, base@) == Some(rel@),
            Err(PathError::PrefixMismatch { path: p, base: b }) => relative_of(path@, base@)
                is None && p@ == path@ && b@ == base@,
        },
{
    let pc = path_components(path);
    let bc = path_components(base);
    if bc.len() > pc.len() {
        return Err(PathError::mismatch(path, base));
    }
    let mut j: usize = 0;
    while j < bc.len()
        invariant
            texts(pc@) == components(path@),
            texts(bc@) == components(base@),
            bc@.len() <= pc@.len(),
            j <= bc@.len(),
            forall|k: int| 0 <= k < j ==> texts(pc@)[k] == texts(bc@)[k],
        decreases bc@.len() - j,
    {
        if !(pc[j] == bc[j]) {
            assert(texts(pc@)[j as int] != texts(bc@)[j as int]);
            assert(texts(pc@).take(bc@.len() as int)[j as int] != texts(bc@)[j as int]);
            assert(texts(pc@).take(bc@.len() as int) != texts(bc@));
            assert(!leads(path@, base@));
            return Err(PathError::mismatch(path, base));
        }
        j = j + 1;
    }
    assert(texts(pc@).take(bc@.len() as int) =~= texts(bc@));
    Ok(join_components(&pc, bc.len()))
}

/// `c` holds neither separator.
pub open spec fn no_sep(c: Seq<char>) -> bool {
    forall|i: int| 0 <= i < c.len() ==> c[i] != '/' && c[i] != '\\'
}

/// Components as `components` gives them: none holds a separator, and
/// only the first may be empty (the root) or `.`.
pub open spec fn well_formed(cs: Seq<Seq<char>>) -> bool {
    &&& forall|i: int| 0 <= i < cs.len() ==> no_sep(#[trigger] cs[i])
    &&& forall|i: int| 1 <= i < cs.len() ==> (#[trigger] cs[i]).len() > 0 && cs[i] != seq!['.']
}

proof fn lemma_state_well_formed(t: Seq<char>)
    requires
        forall|i: int| 0 <= i < t.len() ==> t[i] != '\\',
    ensures
        ({
            let st = comp_state(t);
            &&& well_formed(st.0)
            &&& no_sep(st.1)
            &&& (st.2 ==> st.0.len() == 0)
            &&& (!st.2 ==> st.0.len() >= 1)
        }),
    decreases t.len(),
{
    if t.len() > 0 {
        lemma_state_well_formed(t.drop_last());
        let st = comp_state(t.drop_last());
        if t.last() != '/' {
            let c2 = st.1.push(t.last());
            assert forall|i: int| 0 <= i < c2.len() implies c2[i] != '/' && c2[i] != '\\' by {
                if i < st.1.len() {
                    assert(c2[i] == st.1[i]);
                }
            }
        }
    }
}

proof fn lemma_components_well_formed(s: Seq<char>)
    ensures
        well_formed(components(s)),
{
    lemma_state_well_formed(slashed(s));
}

proof fn lemma_state_append(a: Seq<char>, x: Seq<char>)
    requires
        no_sep(x),
    ensures
        comp_state(a + x) == (comp_state(a).0, comp_state(a).1 + x, comp_state(a).2),
    decreases x.len(),
{
    if x.len() == 0 {
        assert(a + x =~= a);
        assert(comp_state(a).1 + x =~= comp_state(a).1);
    } else {
        lemma_state_append(a, x.drop_last());
        assert((a + x).drop_last() =~= a + x.drop_last());
        assert((a + x).last() == x.last());
        assert((comp_state(a).1 + x.drop_last()).push(x.last()) =~= comp_state(a).1 + x);
    }
}

proof fn lemma_join_state(cs: Seq<Seq<char>>)
    requires
        well_formed(cs),
        cs.len() >= 1,
    ensures
        comp_state(join_plain(cs)) == (cs.drop_last(), cs.last(), cs.len() == 1),
    decreases cs.len(),
{
    if cs.len() == 1 {
        lemma_state_append(Seq::empty(), cs[0]);
        assert(Seq::<char>::empty() + cs[0] =~= cs[0]);
        assert(cs.drop_last() =~= Seq::<Seq<char>>::empty());
    } else {
        let p = cs.drop_last();
        assert forall|i: int| 0 <= i < p.len() implies no_sep(#[trigger] p[i]) by {
            assert(p[i] == cs[i]);
        }
        assert forall|i: int| 1 <= i < p.len() implies (#[trigger] p[i]).len() > 0 && p[i] != seq![
            '.',
        ] by {
            assert(p[i] == cs[i]);
        }
        lemma_join_state(p);
        let jp = join_plain(p) + seq!['/'];
        assert(jp.drop_last() =~= join_plain(p));
        assert(flush(p.drop_last(), p.last(), p.len() == 1) =~= p) by {
            if p.len() > 1 {
                assert(p.last() == cs[p.len() - 1]);
            }
        }
        assert(no_sep(cs.last()));
        lemma_state_append(jp, cs.last());
        assert(Seq::<char>::empty() + cs.last() =~= cs.last());
        assert(join_plain(cs) == jp + cs.last());
    }
}

proof fn lemma_join_clean(cs: Seq<Seq<char>>)
    requires
        forall|i: int| 0 <= i < cs.len() ==> no_sep(#[trigger] cs[i]),
    ensures
        forall|k: int| 0 <= k < join_plain(cs).len() ==> join_plain(cs)[k] != '\\',
    decreases cs.len(),
{
    if cs.len() == 1 {
        assert(no_sep(cs[0]));
    } else if cs.len() > 1 {
        let p = cs.drop_last();
        assert forall|i: int| 0 <= i < p.len() implies no_sep(#[trigger] p[i]) by {
            assert(p[i] == cs[i]);
        }
        lemma_join_clean(p);
        assert(no_sep(cs[cs.len() - 1]));
        let j = join_plain(cs);
        assert forall|k: int| 0 <= k < j.len() implies j[k] != '\\' by {
            if k < join_plain(p).len() {
                assert(j[k] == join_plain(p)[k]);
            } else if k > join_plain(p).len() {
                assert(j[k] == cs.last()[k - join_plain(p).len() - 1]);
            }
        }
    }
}

/// Reading back components written out with `/` gives them again.
proof fn lemma_components_of_join(cs: Seq<Seq<char>>)
    requires
        well_formed(cs),
    ensures
        components(join(cs)) == cs,
{
    if cs == seq![Seq::<char>::empty()] {
        let t = seq!['/'];
        assert(slashed(t) =~= t);
        assert(t.drop_last() =~= Seq::<char>::empty());
        assert(comp_state(Seq::<char>::empty()) == (
            Seq::<Seq<char>>::empty(),
            Seq::<char>::empty(),
            true,
        ));
        assert(Seq::<Seq<char>>::empty().push(Seq::<char>::empty()) =~= cs);
    } else {
        lemma_join_clean(cs);
        assert(slashed(join_plain(cs)) =~= join_plain(cs));
        if cs.len() == 0 {
            assert(comp_state(Seq::<char>::empty()) == (
                Seq::<Seq<char>>::empty(),
                Seq::<char>::empty(),
                true,
            ));
        } else {
            lemma_join_state(cs);
            if cs.last().len() == 0 {
                assert(cs.len() == 1);
                assert(cs =~= seq![Seq::<char>::empty()]);
            }
            assert(cs.drop_last().push(cs.last()) =~= cs);
        }
    }
}

/// A relative path as reconciliation records it: not empty, not starting
/// at the root, and written without backslashes.
pub open spec fn clean_relative(q: Seq<char>) -> bool {
    &&& q.len() > 0
    &&& q[0] != '/'
    &&& forall|i: int| 0 <= i < q.len() ==> q[i] != '\\'
}

/// Written-out components start with the first one's first character.
proof fn lemma_join_head(cs: Seq<Seq<char>>)
    requires
        cs.len() > 0,
        cs[0].len() > 0,
    ensures
        join_plain(cs).len() > 0,
        join_plain(cs)[0] == cs[0][0],
    decreases cs.len(),
{
    if cs.len() > 1 {
        let p = cs.drop_last();
        assert(p[0] == cs[0]);
        lemma_join_head(p);
    }
}

/// A relative path holds no backslash; under a base with components it
/// does not start at the root either.
pub proof fn lemma_relative_has_no_backslash(path: Seq<char>, base: Seq<char>)
    requires
        relative_of(path, base) is Some,
    ensures
        forall|i: int|
            0 <= i < relative_of(path, base)->0.len() ==> relative_of(path, base)->0[i] != '\\',
        components(base).len() > 0 && relative_of(path, base)->0.len() > 0 ==> relative_of(
            path,
            base,
        )->0[0] != '/',
{
    let pc = components(path);
    let n = components(base).len() as int;
    let rest = pc.skip(n);
    lemma_components_well_formed(path);
    assert forall|i: int| 0 <= i < rest.len() implies no_sep(#[trigger] rest[i]) by {
        assert(rest[i] == pc[i + n]);
    }
    lemma_join_clean(rest);
    if n > 0 && rest.len() > 0 {
        assert(rest[0] == pc[n]);
        assert(rest[0].len() > 0);
        assert(rest != seq![Seq::<char>::empty()]);
        lemma_join_head(rest);
        assert(no_sep(rest[0]));
    }
}

/// Joining a base with the relative path computed under it gives back the
/// path: the base's components followed by those of the relative path are
/// the path's components.
pub proof fn lemma_relative_round_trip(path: Seq<char>, base: Seq<char>)
    requires
        leads(path, base),
    ensures
        relative_of(path, base) is Some,
        components(base) + components(relative_of(path, base)->0) == components(path),
{
    let pc = components(path);
    let bc = components(base);
    let n = bc.len() as int;
    let rest = pc.skip(n);
    lemma_components_well_formed(path);
    assert forall|i: int| 0 <= i < rest.len() implies no_sep(#[trigger] rest[i]) by {
        assert(rest[i] == pc[i + n]);
    }
    assert forall|i: int| 1 <= i < rest.len() implies (#[trigger] rest[i]).len() > 0 && rest[i]
        != seq!['.'] by {
        assert(rest[i] == pc[i + n]);
    }
    lemma_components_of_join(rest);
    assert(bc + rest =~= pc);
}

} // verus!

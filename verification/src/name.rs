use vstd::prelude::*;

use crate::error::Error;

verus! {

/// A character that a lock name may not contain: `\0`, `/` or `\`.
pub open spec fn is_forbidden_char(c: char) -> bool {
    c == '\0' || c == '/' || c == '\\'
}

/// A lock name is valid when it is non-empty and holds no forbidden character.
pub open spec fn is_valid_name(name: Seq<char>) -> bool {
    &&& name.len() > 0
    &&& forall|i: int| 0 <= i < name.len() ==> !is_forbidden_char(#[trigger] name[i])
}

/// Checks a lock name: non-empty, and without `\0`, `/` or `\`.
pub fn validate_name(name: &str) -> (r: Result<(), Error>)
    ensures
        r is Ok <==> is_valid_name(name@),
        r is Err ==> r == Err::<(), Error>(Error::InvalidName),
        name@.len() > 0 && (forall|i: int|
            0 <= i < name@.len() ==> #[trigger] name@[i] != '\0' && name@[i] != '/' && name@[i]
                != '\\') ==> r is Ok,
        name@.len() == 0 ==> r == Err::<(), Error>(Error::InvalidName),
        (exists|i: int|
            0 <= i < name@.len() && (#[trigger] name@[i] == '\0' || name@[i] == '/' || name@[i]
                == '\\')) ==> r == Err::<(), Error>(Error::InvalidName),
{
    if name.is_empty() {
        return Err(Error::InvalidName);
    }
    // Null characters break OS APIs; slashes are path separators.
    for c in it: name.chars()
        invariant
            it.seq() == name@,
            forall|j: int| 0 <= j < it.index() ==> !is_forbidden_char(#[trigger] name@[j]),
    {
        if c == '\0' || c == '/' || c == '\\' {
            return Err(Error::InvalidName);
        }
    }
    Ok(())
}

/// Every non-empty name without `\0`, `/` and `\` is valid, whatever else
/// it holds (upper case, spaces, dots, any Unicode).
pub proof fn lemma_name_rule_accepts(name: Seq<char>)
    requires
        name.len() > 0,
        forall|i: int|
            0 <= i < name.len() ==> #[trigger] name[i] != '\0' && name[i] != '/' && name[i] != '\\',
    ensures
        is_valid_name(name),
{
}

/// The empty name is refused, and so is a name with `\0`, `/` or `\` at any
/// position.
pub proof fn lemma_name_rule_refuses(name: Seq<char>, i: int)
    ensures
        !is_valid_name(Seq::<char>::empty()),
        0 <= i < name.len() && (name[i] == '\0' || name[i] == '/' || name[i] == '\\')
            ==> !is_valid_name(name),
{
}

/// The directory used for lock files when `TMPDIR` is unset.
pub open spec fn default_temp_dir() -> Seq<char> {
    "/tmp"@
}

/// Unix path joining as `PathBuf::join` does it: an absolute `file` replaces
/// `dir`; otherwise a `/` separates them unless `dir` is empty or already ends
/// with one.
pub open spec fn join_path(dir: Seq<char>, file: Seq<char>) -> Seq<char> {
    if file.len() > 0 && file[0] == '/' {
        file
    } else if dir.len() == 0 || dir.last() == '/' {
        dir + file
    } else {
        dir + seq!['/'] + file
    }
}

/// The lock file for `name`: `<temp dir>/<name>.lock`, where the temp dir is
/// `TMPDIR` when set and `/tmp` otherwise.
pub open spec fn lock_file_path(temp_dir: Option<Seq<char>>, name: Seq<char>) -> Seq<char> {
    let dir = match temp_dir {
        Some(d) => d,
        None => default_temp_dir(),
    };
    join_path(dir, name + ".lock"@)
}

/// The value of `TMPDIR` as a sequence of characters.
pub open spec fn temp_dir_view(temp_dir: Option<&str>) -> Option<Seq<char>> {
    match temp_dir {
        Some(d) => Some(d@),
        None => None,
    }
}

/// Whether the last character of `s` is `/`.
fn ends_with_slash(s: &str) -> (b: bool)
    ensures
        b == (s@.len() > 0 && s@.last() == '/'),
{
    let mut last: Option<char> = None;
    for c in it: s.chars()
        invariant
            it.seq() == s@,
            match last {
                None => it.index() == 0,
                Some(l) => it.index() > 0 && l == s@[it.index() - 1],
            },
    {
        last = Some(c);
    }
    match last {
        Some(l) => l == '/',
        None => false,
    }
}

/// Whether the first character of `s` is `/`.
fn starts_with_slash(s: &str) -> (b: bool)
    ensures
        b == (s@.len() > 0 && s@[0] == '/'),
{
    let mut it = s.chars();
    match it.next() {
        Some(c) => c == '/',
        None => false,
    }
}

/// Derives the lock file path for `name` from the value of `TMPDIR`
/// (`None` when it is unset).
pub fn key_from_name(temp_dir: Option<&str>, name: &str) -> (key: String)
    ensures
        key@ == lock_file_path(temp_dir_view(temp_dir), name@),
{
    let file = String::from_str(name).concat(".lock");
    let dir = match temp_dir {
        Some(d) => String::from_str(d),
        None => String::from_str("/tmp"),
    };
    if starts_with_slash(file.as_str()) {
        file
    } else if dir.as_str().is_empty() || ends_with_slash(dir.as_str()) {
        dir.concat(file.as_str())
    } else {
        proof {
            reveal_strlit("/");
        }
        dir.concat("/").concat(file.as_str())
    }
}

/// Locks with different valid names are independent: for one temp dir,
/// distinct names give distinct lock files.
pub proof fn lemma_distinct_names_distinct_keys(
    temp_dir: Option<Seq<char>>,
    a: Seq<char>,
    b: Seq<char>,
)
    requires
        is_valid_name(a),
        is_valid_name(b),
        a != b,
    ensures
        lock_file_path(temp_dir, a) != lock_file_path(temp_dir, b),
{
    let dir = match temp_dir {
        Some(d) => d,
        None => default_temp_dir(),
    };
    let suffix = ".lock"@;
    let fa = a + suffix;
    let fb = b + suffix;
    assert(fa[0] == a[0]);
    assert(fb[0] == b[0]);
    let prefix = if dir.len() == 0 || dir.last() == '/' {
        dir
    } else {
        dir + seq!['/']
    };
    assert(lock_file_path(temp_dir, a) == prefix + fa);
    assert(lock_file_path(temp_dir, b) == prefix + fb);
    if prefix + fa == prefix + fb {
        assert(fa.len() == fb.len());
        assert(a.len() == b.len());
        assert forall|i: int| 0 <= i < a.len() implies a[i] == b[i] by {
            assert((prefix + fa)[prefix.len() + i] == a[i]);
            assert((prefix + fb)[prefix.len() + i] == b[i]);
        }
        assert(a =~= b);
    }
}

/// The segments of a path between its `/` separators, empty ones included:
/// `"/a//b"` has the segments `""`, `"a"`, `""`, `"b"`.
pub open spec fn path_segments(p: Seq<char>) -> Seq<Seq<char>>
    decreases p.len(),
{
    if p.len() == 0 {
        seq![Seq::<char>::empty()]
    } else {
        let s = path_segments(p.drop_last());
        if p.last() == '/' {
            s.push(Seq::<char>::empty())
        } else {
            s.update(s.len() - 1, s.last().push(p.last()))
        }
    }
}

/// A segment that names a directory entry: neither empty nor `.`.
pub open spec fn is_normal_component(seg: Seq<char>) -> bool {
    seg.len() > 0 && seg != seq!['.']
}

/// The segments that name directory entries, in order.
pub open spec fn normal_components(segs: Seq<Seq<char>>) -> Seq<Seq<char>>
    decreases segs.len(),
{
    if segs.len() == 0 {
        Seq::<Seq<char>>::empty()
    } else {
        let r = normal_components(segs.drop_last());
        if is_normal_component(segs.last()) {
            r.push(segs.last())
        } else {
            r
        }
    }
}

/// Components joined by `/`.
pub open spec fn join_components(c: Seq<Seq<char>>) -> Seq<char>
    decreases c.len(),
{
    if c.len() == 0 {
        Seq::<char>::empty()
    } else if c.len() == 1 {
        c[0]
    } else {
        join_components(c.drop_last()) + seq!['/'] + c.last()
    }
}

/// Whether a Unix path has a root: it starts with `/`.
pub open spec fn has_root(p: Seq<char>) -> bool {
    p.len() > 0 && p[0] == '/'
}

/// Whether a Unix path starts with a `.` component: it is `.` or starts with
/// `./`, and has no root.
pub open spec fn has_cur_dir(p: Seq<char>) -> bool {
    !has_root(p) && p.len() > 0 && p[0] == '.' && (p.len() == 1 || p[1] == '/')
}

/// The key under which the registry files a lock path: its components as
/// `std::path::Path` reads them on Unix (a root, a leading `.`, and the normal
/// components; repeated separators, inner `.` and a trailing `/` count for
/// nothing), written out in one canonical way. Paths that `PathBuf` holds
/// equal have the same key.
pub open spec fn components_key(p: Seq<char>) -> Seq<char> {
    let comps = normal_components(path_segments(p));
    if has_root(p) {
        seq!['/'] + join_components(comps)
    } else if has_cur_dir(p) {
        if comps.len() == 0 {
            seq!['.']
        } else {
            seq!['.', '/'] + join_components(comps)
        }
    } else {
        join_components(comps)
    }
}

proof fn lemma_segments_nonempty(p: Seq<char>)
    ensures
        path_segments(p).len() >= 1,
    decreases p.len(),
{
    if p.len() > 0 {
        lemma_segments_nonempty(p.drop_last());
    }
}

/// No segment holds a `/`.
proof fn lemma_segments_no_slash(p: Seq<char>)
    ensures
        forall|j: int, k: int|
            0 <= j < path_segments(p).len() && 0 <= k < path_segments(p)[j].len()
                ==> #[trigger] path_segments(p)[j][k] != '/',
    decreases p.len(),
{
    if p.len() > 0 {
        lemma_segments_no_slash(p.drop_last());
        lemma_segments_nonempty(p.drop_last());
        let s = path_segments(p.drop_last());
        if p.last() != '/' {
            let t = s.update(s.len() - 1, s.last().push(p.last()));
            assert forall|j: int, k: int| 0 <= j < t.len() && 0 <= k < t[j].len() implies #[trigger] t[j][k]
                != '/' by {
                if j == s.len() - 1 && k == s.last().len() {
                } else if j == s.len() - 1 {
                    assert(t[j][k] == s[j][k]);
                } else {
                    assert(t[j] == s[j]);
                }
            }
        } else {
            let t = s.push(Seq::<char>::empty());
            assert forall|j: int, k: int| 0 <= j < t.len() && 0 <= k < t[j].len() implies #[trigger] t[j][k]
                != '/' by {
                assert(t[j] == s[j]);
            }
        }
    }
}

/// A path without `/` is one segment.
proof fn lemma_segments_single(y: Seq<char>)
    requires
        forall|k: int| 0 <= k < y.len() ==> #[trigger] y[k] != '/',
    ensures
        path_segments(y) == seq![y],
    decreases y.len(),
{
    if y.len() > 0 {
        let d = y.drop_last();
        assert forall|k: int| 0 <= k < d.len() implies #[trigger] d[k] != '/' by {
            assert(d[k] == y[k]);
        }
        lemma_segments_single(d);
        assert(y.last() != '/');
        assert(d.push(y.last()) =~= y);
        assert(seq![d].update(0, d.push(y.last())) =~= seq![y]);
    } else {
        assert(y =~= Seq::<char>::empty());
    }
}

/// A `/` splits the segments: those of `x` followed by those of `y`.
proof fn lemma_segments_concat(x: Seq<char>, y: Seq<char>)
    ensures
        path_segments(x + seq!['/'] + y) == path_segments(x) + path_segments(y),
    decreases y.len(),
{
    let z = x + seq!['/'] + y;
    if y.len() == 0 {
        assert(z.drop_last() =~= x);
        assert(path_segments(x).push(Seq::<char>::empty()) =~= path_segments(x) + seq![
            Seq::<char>::empty(),
        ]);
    } else {
        let y2 = y.drop_last();
        lemma_segments_concat(x, y2);
        assert(z.drop_last() =~= x + seq!['/'] + y2);
        assert(z.last() == y.last());
        let a = path_segments(x);
        let b = path_segments(y2);
        lemma_segments_nonempty(y2);
        if y.last() == '/' {
            assert((a + b).push(Seq::<char>::empty()) =~= a + b.push(Seq::<char>::empty()));
        } else {
            let v = b.last().push(y.last());
            assert((a + b).last() == b.last());
            assert((a + b).update((a + b).len() - 1, v) =~= a + b.update(b.len() - 1, v));
        }
    }
}

/// Components without `/` joined by `/` split back into the same components.
proof fn lemma_join_segments(c: Seq<Seq<char>>)
    requires
        c.len() >= 1,
        forall|j: int, k: int| 0 <= j < c.len() && 0 <= k < c[j].len() ==> #[trigger] c[j][k] != '/',
    ensures
        path_segments(join_components(c)) == c,
    decreases c.len(),
{
    if c.len() == 1 {
        assert forall|k: int| 0 <= k < c[0].len() implies #[trigger] c[0][k] != '/' by {
            assert(c[0][k] != '/');
        }
        lemma_segments_single(c[0]);
        assert(seq![c[0]] =~= c);
    } else {
        let d = c.drop_last();
        assert forall|j: int, k: int| 0 <= j < d.len() && 0 <= k < d[j].len() implies #[trigger] d[j][k]
            != '/' by {
            assert(d[j] == c[j]);
        }
        lemma_join_segments(d);
        let l = c.last();
        assert forall|k: int| 0 <= k < l.len() implies #[trigger] l[k] != '/' by {
            assert(c[c.len() - 1][k] != '/');
        }
        lemma_segments_single(l);
        lemma_segments_concat(join_components(d), l);
        assert(d + seq![l] =~= c);
    }
}

/// Filtering distributes over concatenation.
proof fn lemma_normal_concat(a: Seq<Seq<char>>, b: Seq<Seq<char>>)
    ensures
        normal_components(a + b) == normal_components(a) + normal_components(b),
    decreases b.len(),
{
    if b.len() == 0 {
        assert(a + b =~= a);
        assert(normal_components(a) + Seq::<Seq<char>>::empty() =~= normal_components(a));
    } else {
        lemma_normal_concat(a, b.drop_last());
        assert((a + b).drop_last() =~= a + b.drop_last());
        assert((a + b).last() == b.last());
        let na = normal_components(a);
        let nb = normal_components(b.drop_last());
        assert((na + nb).push(b.last()) =~= na + nb.push(b.last()));
    }
}

/// Filtering keeps a sequence of normal components as it is.
proof fn lemma_normal_keeps_normal(c: Seq<Seq<char>>)
    requires
        forall|j: int| 0 <= j < c.len() ==> is_normal_component(#[trigger] c[j]),
    ensures
        normal_components(c) == c,
    decreases c.len(),
{
    if c.len() > 0 {
        lemma_normal_keeps_normal(c.drop_last());
        assert(c.drop_last().push(c.last()) =~= c);
    }
}

/// What filtering keeps is normal, and holds no `/` when no segment did.
proof fn lemma_normal_are_normal(segs: Seq<Seq<char>>)
    requires
        forall|j: int, k: int|
            0 <= j < segs.len() && 0 <= k < segs[j].len() ==> #[trigger] segs[j][k] != '/',
    ensures
        forall|j: int|
            0 <= j < normal_components(segs).len() ==> is_normal_component(
                #[trigger] normal_components(segs)[j],
            ),
        forall|j: int, k: int|
            0 <= j < normal_components(segs).len() && 0 <= k < normal_components(segs)[j].len()
                ==> #[trigger] normal_components(segs)[j][k] != '/',
    decreases segs.len(),
{
    if segs.len() > 0 {
        let d = segs.drop_last();
        assert forall|j: int, k: int| 0 <= j < d.len() && 0 <= k < d[j].len() implies #[trigger] d[j][k]
            != '/' by {
            assert(d[j] == segs[j]);
        }
        lemma_normal_are_normal(d);
        let r = normal_components(d);
        if is_normal_component(segs.last()) {
            let t = r.push(segs.last());
            assert forall|j: int, k: int| 0 <= j < t.len() && 0 <= k < t[j].len() implies #[trigger] t[j][k]
                != '/' by {
                if j == r.len() {
                    assert(segs[segs.len() - 1][k] != '/');
                } else {
                    assert(t[j] == r[j]);
                }
            }
            assert forall|j: int| 0 <= j < t.len() implies is_normal_component(#[trigger] t[j]) by {
                if j < r.len() {
                    assert(t[j] == r[j]);
                }
            }
        }
    }
}

/// Joined components start with the first component.
proof fn lemma_join_starts_with_first(c: Seq<Seq<char>>)
    requires
        c.len() >= 1,
    ensures
        join_components(c).len() >= c[0].len(),
        forall|k: int| 0 <= k < c[0].len() ==> #[trigger] join_components(c)[k] == c[0][k],
    decreases c.len(),
{
    if c.len() > 1 {
        let d = c.drop_last();
        lemma_join_starts_with_first(d);
        assert(d[0] == c[0]);
    }
}

/// The registry key keeps every component of the path: read back as a path,
/// it has exactly the normal components of the original, so paths with
/// different components get different keys.
pub proof fn lemma_key_keeps_components(p: Seq<char>)
    ensures
        normal_components(path_segments(components_key(p))) == normal_components(path_segments(p)),
        has_root(components_key(p)) == has_root(p),
        has_cur_dir(components_key(p)) == has_cur_dir(p),
{
    let c = normal_components(path_segments(p));
    lemma_segments_no_slash(p);
    lemma_normal_are_normal(path_segments(p));
    lemma_normal_keeps_normal(c);
    let e = Seq::<char>::empty();
    let empty_segs = seq![e];
    assert(path_segments(e) == empty_segs);
    let none = Seq::<Seq<char>>::empty();
    assert(normal_components(none) == none);
    assert(normal_components(empty_segs) =~= none) by {
        assert(empty_segs.drop_last() =~= none);
        assert(!is_normal_component(empty_segs.last()));
    }
    let dot = seq!['.'];
    assert(path_segments(dot) == seq![dot]) by {
        lemma_segments_single(dot);
    }
    assert(normal_components(seq![dot]) =~= none) by {
        assert(seq![dot].drop_last() =~= none);
        assert(!is_normal_component(seq![dot].last()));
    }
    if c.len() == 0 {
        if has_root(p) {
            assert(components_key(p) =~= e + seq!['/'] + e);
            lemma_segments_concat(e, e);
            lemma_normal_concat(empty_segs, empty_segs);
        } else if has_cur_dir(p) {
        } else {
        }
    } else {
        let j = join_components(c);
        lemma_join_segments(c);
        if has_root(p) {
            assert(components_key(p) =~= e + seq!['/'] + j);
            lemma_segments_concat(e, j);
            lemma_normal_concat(empty_segs, c);
            assert(Seq::<Seq<char>>::empty() + c =~= c);
        } else if has_cur_dir(p) {
            assert(components_key(p) =~= dot + seq!['/'] + j);
            lemma_segments_concat(dot, j);
            lemma_normal_concat(seq![dot], c);
            assert(Seq::<Seq<char>>::empty() + c =~= c);
        } else {
            lemma_join_starts_with_first(c);
            assert(is_normal_component(c[0]));
            assert(c[0][0] != '/');
            if c[0].len() == 1 {
                assert(c[0] != seq!['.']);
                assert(c[0] =~= seq![c[0][0]]);
                assert(c[0][0] != '.');
            } else {
                assert(c[0][1] != '/');
            }
        }
    }
}

/// Paths with the same components are one lock: their registry keys agree.
pub proof fn lemma_same_components_same_key(a: Seq<char>, b: Seq<char>)
    requires
        has_root(a) == has_root(b),
        has_cur_dir(a) == has_cur_dir(b),
        normal_components(path_segments(a)) == normal_components(path_segments(b)),
    ensures
        components_key(a) == components_key(b),
{
}

/// The registry key of a lock path: its components in canonical form.
pub fn path_key(path: &str) -> (k: String)
    ensures
        k@ == components_key(path@),
        normal_components(path_segments(k@)) == normal_components(path_segments(path@)),
        has_root(k@) == has_root(path@),
        has_cur_dir(k@) == has_cur_dir(path@),
{
    let k = path_key_of(path);
    proof {
        lemma_key_keeps_components(path@);
    }
    k
}

/// Computes the canonical components key of a path.
fn path_key_of(path: &str) -> (k: String)
    ensures
        k@ == components_key(path@),
{
    let n = path.unicode_len();
    let mut comps = String::new();
    let mut any = false;
    let mut start: usize = 0;
    let mut i: usize = 0;
    let mut last: char = ' ';
    proof {
        assert(path@.take(0) =~= Seq::<char>::empty());
        reveal_strlit("/");
    }
    for c in it: path.chars()
        invariant
            it.seq() == path@,
            n == path@.len(),
            i == it.index(),
            start <= i,
            path_segments(path@.take(i as int)).len() >= 1,
            path_segments(path@.take(i as int)).last() == path@.subrange(start as int, i as int),
            start < i ==> last == path@[i - 1],
            comps@ == join_components(
                normal_components(path_segments(path@.take(i as int)).drop_last()),
            ),
            any == (normal_components(path_segments(path@.take(i as int)).drop_last()).len() > 0),
            "/"@ == seq!['/'],
    {
        let ghost pre = path@.take(i as int);
        let ghost segs = path_segments(pre);
        proof {
            assert(path@.take(i + 1).drop_last() =~= pre);
            assert(path@.take(i + 1).last() == c);
            lemma_segments_nonempty(path@.take(i + 1));
        }
        if c == '/' {
            let seg_len = i - start;
            let normal = seg_len > 0 && !(seg_len == 1 && last == '.');
            proof {
                let seg = segs.last();
                assert(seg.len() == seg_len);
                if seg_len == 1 {
                    assert(seg[0] == last);
                    if last == '.' {
                        assert(seg =~= seq!['.']);
                    } else {
                        assert(seg != seq!['.']) by {
                            assert(seg[0] != seq!['.'][0]);
                        }
                    }
                }
                assert(normal == is_normal_component(seg));
                let segs2 = path_segments(path@.take(i + 1));
                assert(segs2 == segs.push(Seq::<char>::empty()));
                assert(segs2.drop_last() =~= segs);
                assert(segs =~= segs.drop_last().push(seg));
            }
            if normal {
                let seg = path.substring_char(start, i);
                proof {
                    let done = normal_components(segs.drop_last());
                    assert(done.push(seg@).drop_last() =~= done);
                }
                if any {
                    comps.append("/");
                }
                comps.append(seg);
                any = true;
            }
            start = i + 1;
        } else {
            proof {
                let segs2 = path_segments(path@.take(i + 1));
                assert(segs2.drop_last() =~= segs.drop_last());
                assert(segs2.last() =~= path@.subrange(start as int, i + 1));
            }
        }
        last = c;
        i = i + 1;
    }
    proof {
        assert(path@.take(i as int) =~= path@);
    }
    let ghost segs = path_segments(path@);
    let seg_len = i - start;
    let normal = seg_len > 0 && !(seg_len == 1 && last == '.');
    proof {
        let seg = segs.last();
        assert(seg.len() == seg_len);
        if seg_len == 1 {
            assert(seg[0] == last);
            if last == '.' {
                assert(seg =~= seq!['.']);
            } else {
                assert(seg != seq!['.']) by {
                    assert(seg[0] != seq!['.'][0]);
                }
            }
        }
        assert(normal == is_normal_component(seg));
        assert(segs =~= segs.drop_last().push(seg));
    }
    if normal {
        let seg = path.substring_char(start, i);
        proof {
            let done = normal_components(segs.drop_last());
            assert(done.push(seg@).drop_last() =~= done);
        }
        if any {
            comps.append("/");
        }
        comps.append(seg);
        any = true;
    }
    let root = starts_with_slash(path);
    let cur_dir = !root && n > 0 && path.get_char(0) == '.' && (n == 1 || path.get_char(1) == '/');
    if root {
        String::from_str("/").concat(comps.as_str())
    } else if cur_dir {
        if any {
            proof {
                reveal_strlit("./");
            }
            String::from_str("./").concat(comps.as_str())
        } else {
            proof {
                reveal_strlit(".");
            }
            String::from_str(".")
        }
    } else {
        comps
    }
}

} // verus!

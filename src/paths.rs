//! A model of Unix paths as `std::path::Path` splits them into components.
//!
//! A component is kept as its text: `/` stands for the root, `.` for a leading
//! current-directory marker, `..` for a parent step, and anything else is a
//! normal name.
use vstd::prelude::*;
use crate::text::{chars_of, push_char};

verus! {

/// Adds the segment `cur` to `comps`: empty segments vanish, and a `.`
/// segment survives only as the very first segment of a relative path.
pub open spec fn flush_segment(comps: Seq<Seq<char>>, cur: Seq<char>, first: bool) -> Seq<Seq<char>> {
    if cur.len() == 0 {
        comps
    } else if cur == seq!['.'] {
        if first {
            comps.push(cur)
        } else {
            comps
        }
    } else {
        comps.push(cur)
    }
}

/// The components finished after reading the first `i` characters of `s`,
/// and the segment still open.
pub open spec fn split_state(s: Seq<char>, i: nat) -> (Seq<Seq<char>>, Seq<char>)
    decreases i,
{
    if i == 0 || i > s.len() {
        (seq![], seq![])
    } else {
        let (comps, cur) = split_state(s, (i - 1) as nat);
        if s[i - 1] == '/' {
            if i == 1 {
                (comps.push(seq!['/']), seq![])
            } else {
                (flush_segment(comps, cur, cur.len() == i - 1), seq![])
            }
        } else {
            (comps, cur.push(s[i - 1]))
        }
    }
}

/// The components of the path `s`.
pub open spec fn components(s: Seq<char>) -> Seq<Seq<char>> {
    let (comps, cur) = split_state(s, s.len());
    flush_segment(comps, cur, cur.len() == s.len())
}

/// A component that is a name rather than the root, `.` or `..`.
pub open spec fn is_normal(c: Seq<char>) -> bool {
    c.len() > 0 && c != seq!['/'] && c != seq!['.'] && c != seq!['.', '.']
}

/// Some normal component of `s` starts with a dot.
pub open spec fn has_hidden_component(s: Seq<char>) -> bool {
    exists|j: int|
        0 <= j < components(s).len() && is_normal(#[trigger] components(s)[j])
            && components(s)[j][0] == '.'
}

/// The components of `base` are a prefix of those of `p`.
pub open spec fn path_starts_with(p: Seq<char>, base: Seq<char>) -> bool {
    components(base).len() <= components(p).len() && components(p).subrange(
        0,
        components(base).len() as int,
    ) == components(base)
}

/// The final component of `s`, when it is a normal name.
pub open spec fn file_name(s: Seq<char>) -> Option<Seq<char>> {
    if components(s).len() > 0 && is_normal(components(s).last()) {
        Some(components(s).last())
    } else {
        None
    }
}

/// Components written back as text, separated by `/`.
pub open spec fn join_components(cs: Seq<Seq<char>>) -> Seq<char>
    decreases cs.len(),
{
    if cs.len() == 0 {
        seq![]
    } else {
        let pre = join_components(cs.drop_last());
        if pre.len() == 0 || pre.last() == '/' {
            pre + cs.last()
        } else {
            pre + seq!['/'] + cs.last()
        }
    }
}

/// The path without its final component; none for the root or an empty path.
pub open spec fn parent(s: Seq<char>) -> Option<Seq<char>> {
    if components(s).len() > 0 && components(s).last() != seq!['/'] {
        Some(join_components(components(s).drop_last()))
    } else {
        None
    }
}

/// Index of the last `.` in `name[0..i]`, if any.
pub open spec fn last_dot(name: Seq<char>, i: int) -> Option<int>
    decreases i,
{
    if i <= 0 || i > name.len() {
        None
    } else if name[i - 1] == '.' {
        Some(i - 1)
    } else {
        last_dot(name, i - 1)
    }
}

/// The extension of a file name: what follows its last dot, unless that dot
/// is the first character or there is none (`..` has none either).
pub open spec fn extension(name: Seq<char>) -> Option<Seq<char>> {
    if name == seq!['.', '.'] {
        None
    } else {
        match last_dot(name, name.len() as int) {
            Some(k) => if k == 0 {
                None
            } else {
                Some(name.subrange(k + 1, name.len() as int))
            },
            None => None,
        }
    }
}

/// The character sequences held by a list of character vectors.
pub open spec fn views(v: Seq<Vec<char>>) -> Seq<Seq<char>> {
    Seq::new(v.len(), |i: int| v[i]@)
}

fn is_dot(cur: &Vec<char>) -> (r: bool)
    ensures
        r == (cur@ == seq!['.']),
{
    if cur.len() == 1 && cur[0] == '.' {
        assert(cur@ =~= seq!['.']);
        true
    } else {
        false
    }
}

fn flush_into(comps: &mut Vec<Vec<char>>, cur: Vec<char>, first: bool)
    ensures
        views(final(comps)@) == flush_segment(views(old(comps)@), cur@, first),
{
    let dot = is_dot(&cur);
    if cur.len() == 0 || (dot && !first) {
        return;
    }
    let ghost before = views(comps@);
    comps.push(cur);
    assert(views(comps@) =~= before.push(cur@));
}

/// The components of `s`, each as its characters.
pub fn path_components(s: &str) -> (r: Vec<Vec<char>>)
    ensures
        views(r@) == components(s@),
{
    let chars = chars_of(s);
    let n = chars.len();
    let mut comps: Vec<Vec<char>> = Vec::new();
    let mut cur: Vec<char> = Vec::new();
    let mut i: usize = 0;
    assert(views(comps@) =~= seq![]);
    assert(cur@ =~= seq![]);
    while i < n
        invariant
            n == chars@.len(),
            chars@ == s@,
            i <= n,
            (views(comps@), cur@) == split_state(s@, i as nat),
        decreases n - i,
    {
        let c = chars[i];
        if c == '/' {
            if i == 0 {
                let ghost before = views(comps@);
                let mut root: Vec<char> = Vec::new();
                root.push('/');
                assert(root@ =~= seq!['/']);
                comps.push(root);
                assert(views(comps@) =~= before.push(seq!['/']));
            } else {
                let first = cur.len() == i;
                flush_into(&mut comps, cur, first);
            }
            cur = Vec::new();
            assert(cur@ =~= seq![]);
        } else {
            cur.push(c);
        }
        i = i + 1;
    }
    let first = cur.len() == n;
    flush_into(&mut comps, cur, first);
    comps
}

fn is_normal_exec(c: &Vec<char>) -> (r: bool)
    ensures
        r == is_normal(c@),
{
    if c.len() == 0 {
        return false;
    }
    if c.len() == 1 && (c[0] == '/' || c[0] == '.') {
        assert(c@ == seq![c[0]]);
        return false;
    }
    if c.len() == 2 && c[0] == '.' && c[1] == '.' {
        assert(c@ =~= seq!['.', '.']);
        return false;
    }
    proof {
        if c@ == seq!['/'] || c@ == seq!['.'] {
            assert(c@.len() == 1);
        }
        if c@ == seq!['.', '.'] {
            assert(c@.len() == 2 && c@[0] == '.' && c@[1] == '.');
        }
    }
    true
}

/// Whether some normal component of `path` starts with a dot.
pub fn is_hidden_path(path: &str) -> (r: bool)
    ensures
        r == has_hidden_component(path@),
{
    let comps = path_components(path);
    let ghost cs = components(path@);
    let mut j: usize = 0;
    while j < comps.len()
        invariant
            views(comps@) == cs,
            cs == components(path@),
            j <= comps.len(),
            forall|k: int| 0 <= k < j ==> !(is_normal(#[trigger] cs[k]) && cs[k][0] == '.'),
        decreases comps.len() - j,
    {
        assert(comps[j as int]@ == cs[j as int]);
        if is_normal_exec(&comps[j]) && comps[j][0] == '.' {
            return true;
        }
        j = j + 1;
    }
    false
}

fn seq_eq(a: &Vec<char>, b: &Vec<char>) -> (r: bool)
    ensures
        r == (a@ == b@),
{
    if a.len() != b.len() {
        return false;
    }
    let mut i: usize = 0;
    while i < a.len()
        invariant
            a.len() == b.len(),
            i <= a.len(),
            forall|k: int| 0 <= k < i ==> a@[k] == b@[k],
        decreases a.len() - i,
    {
        if a[i] != b[i] {
            return false;
        }
        i = i + 1;
    }
    assert(a@ =~= b@);
    true
}

/// Whether the components of `base` begin the components of `p`.
pub fn starts_with_path(p: &str, base: &str) -> (r: bool)
    ensures
        r == path_starts_with(p@, base@),
{
    let pc = path_components(p);
    let bc = path_components(base);
    if bc.len() > pc.len() {
        return false;
    }
    let mut i: usize = 0;
    while i < bc.len()
        invariant
            views(pc@) == components(p@),
            views(bc@) == components(base@),
            bc.len() <= pc.len(),
            i <= bc.len(),
            forall|k: int| 0 <= k < i ==> views(pc@)[k] == views(bc@)[k],
        decreases bc.len() - i,
    {
        if !seq_eq(&pc[i], &bc[i]) {
            assert(views(pc@).subrange(0, bc.len() as int)[i as int] != views(bc@)[i as int]);
            return false;
        }
        i = i + 1;
    }
    assert(views(pc@).subrange(0, bc.len() as int) =~= views(bc@));
    true
}

/// Whether the text of `s` begins with the text of `prefix`.
pub fn starts_with_text(s: &str, prefix: &str) -> (r: bool)
    ensures
        r == (prefix@.len() <= s@.len() && s@.subrange(0, prefix@.len() as int) == prefix@),
{
    let a = chars_of(s);
    let b = chars_of(prefix);
    if b.len() > a.len() {
        return false;
    }
    let mut i: usize = 0;
    while i < b.len()
        invariant
            a@ == s@,
            b@ == prefix@,
            b.len() <= a.len(),
            i <= b.len(),
            forall|k: int| 0 <= k < i ==> a@[k] == b@[k],
        decreases b.len() - i,
    {
        if a[i] != b[i] {
            assert(s@.subrange(0, prefix@.len() as int)[i as int] != prefix@[i as int]);
            return false;
        }
        i = i + 1;
    }
    assert(s@.subrange(0, prefix@.len() as int) =~= prefix@);
    true
}

/// A string holding exactly the characters `cs`.
pub fn string_of(cs: &Vec<char>) -> (r: String)
    ensures
        r@ == cs@,
{
    let mut out = String::new();
    let mut i: usize = 0;
    while i < cs.len()
        invariant
            i <= cs.len(),
            out@ == cs@.subrange(0, i as int),
        decreases cs.len() - i,
    {
        push_char(&mut out, cs[i]);
        i = i + 1;
        assert(out@ =~= cs@.subrange(0, i as int));
    }
    assert(cs@.subrange(0, cs.len() as int) =~= cs@);
    out
}

/// The file name of `path`, when its last component is a name.
pub fn path_file_name(path: &str) -> (r: Option<String>)
    ensures
        match r {
            Some(n) => file_name(path@) == Some(n@),
            None => file_name(path@) is None,
        },
{
    let comps = path_components(path);
    let ghost cs = views(comps@);
    if comps.len() == 0 {
        return None;
    }
    let last = comps.len() - 1;
    assert(comps[last as int]@ == cs.last());
    if is_normal_exec(&comps[last]) {
        Some(string_of(&comps[last]))
    } else {
        None
    }
}

/// The text of `path` without its last component.
pub fn path_parent(path: &str) -> (r: Option<String>)
    ensures
        match r {
            Some(p) => parent(path@) == Some(p@),
            None => parent(path@) is None,
        },
{
    let comps = path_components(path);
    let ghost cs = views(comps@);
    if comps.len() == 0 {
        return None;
    }
    let last = comps.len() - 1;
    assert(comps[last as int]@ == cs.last());
    if comps[last].len() == 1 && comps[last][0] == '/' {
        assert(cs.last() =~= seq!['/']);
        return None;
    }
    proof {
        if cs.last() == seq!['/'] {
            assert(cs.last().len() == 1);
        }
    }
    let mut out = String::new();
    let mut i: usize = 0;
    while i < last
        invariant
            views(comps@) == cs,
            last == cs.len() - 1,
            i <= last,
            out@ == join_components(cs.subrange(0, i as int)),
        decreases last - i,
    {
        let ghost pre = out@;
        assert(cs.subrange(0, i + 1).drop_last() =~= cs.subrange(0, i as int));
        assert(comps[i as int]@ == cs[i as int]);
        let needs_sep = !out.as_str().is_empty() && !ends_with_slash(&out);
        if needs_sep {
            push_char(&mut out, '/');
        }
        let part = string_of(&comps[i]);
        out.append(part.as_str());
        i = i + 1;
        assert(out@ =~= join_components(cs.subrange(0, i as int)));
    }
    assert(cs.subrange(0, last as int) =~= cs.drop_last());
    Some(out)
}

fn ends_with_slash(s: &String) -> (r: bool)
    requires
        s@.len() > 0,
    ensures
        r == (s@.last() == '/'),
{
    let cs = chars_of(s.as_str());
    cs[cs.len() - 1] == '/'
}

/// The extension of the file name `name`.
pub fn name_extension(name: &str) -> (r: Option<String>)
    ensures
        match r {
            Some(e) => extension(name@) == Some(e@),
            None => extension(name@) is None,
        },
{
    let cs = chars_of(name);
    let n = cs.len();
    if n == 2 && cs[0] == '.' && cs[1] == '.' {
        assert(name@ =~= seq!['.', '.']);
        return None;
    }
    proof {
        if name@ == seq!['.', '.'] {
            assert(name@.len() == 2 && name@[0] == '.' && name@[1] == '.');
        }
    }
    let mut i: usize = n;
    while i > 0 && cs[i - 1] != '.'
        invariant
            cs@ == name@,
            n == cs@.len(),
            i <= n,
            last_dot(name@, n as int) == last_dot(name@, i as int),
        decreases i,
    {
        i = i - 1;
    }
    if i <= 1 {
        return None;
    }
    let mut ext: Vec<char> = Vec::new();
    let mut j: usize = i;
    while j < n
        invariant
            cs@ == name@,
            n == cs@.len(),
            i <= j <= n,
            ext@ == name@.subrange(i as int, j as int),
        decreases n - j,
    {
        ext.push(cs[j]);
        j = j + 1;
        assert(ext@ =~= name@.subrange(i as int, j as int));
    }
    Some(string_of(&ext))
}

} // verus!

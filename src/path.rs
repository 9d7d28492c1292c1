//! A model of Unix paths as text: the pieces between separators, the
//! components that a path names, its file name, extension and stem, joining a
//! name onto a directory, and component-wise prefixes.

use vstd::prelude::*;
use vstd::string::*;
use crate::text::chars_of;

verus! {

/// The pieces of `s` between `/` separators, empty pieces included.
pub open spec fn pieces(s: Seq<char>) -> Seq<Seq<char>>
    decreases s.len(),
{
    if s.len() == 0 {
        seq![Seq::empty()]
    } else {
        let p = pieces(s.drop_last());
        if s.last() == '/' {
            p.push(Seq::empty())
        } else {
            p.update(p.len() - 1, p.last().push(s.last()))
        }
    }
}

/// A piece that names something: not empty and not the current directory.
pub open spec fn names_entry(piece: Seq<char>) -> bool {
    piece.len() > 0 && piece != seq!['.']
}

/// The root component, which a path has when it starts with a separator.
pub open spec fn root_part(s: Seq<char>) -> Seq<Seq<char>> {
    if s.len() > 0 && s[0] == '/' {
        seq![seq!['/']]
    } else {
        Seq::empty()
    }
}

/// The current-directory component, which a path keeps only when it starts
/// with one.
pub open spec fn lead_part(s: Seq<char>) -> Seq<Seq<char>> {
    if pieces(s)[0] == seq!['.'] {
        seq![seq!['.']]
    } else {
        Seq::empty()
    }
}

/// The components of a path: the root `/` if it is absolute, a leading `.`
/// if it starts with one, then every piece that names an entry (`..`
/// included). Empty pieces and inner `.` pieces do not count.
pub open spec fn components(s: Seq<char>) -> Seq<Seq<char>> {
    root_part(s) + lead_part(s) + pieces(s).filter(|x: Seq<char>| names_entry(x))
}

/// The final component of a path, when it is an ordinary name (not the root,
/// `.` or `..`).
pub open spec fn file_name(s: Seq<char>) -> Option<Seq<char>> {
    let c = components(s);
    if c.len() > 0 && c.last() != seq!['/'] && c.last() != seq!['.'] && c.last() != seq!['.', '.'] {
        Some(c.last())
    } else {
        None
    }
}

/// The index of the last `.` in `name`, or -1 when there is none.
pub open spec fn last_dot(name: Seq<char>) -> int
    decreases name.len(),
{
    if name.len() == 0 {
        -1
    } else if name.last() == '.' {
        name.len() - 1
    } else {
        last_dot(name.drop_last())
    }
}

/// What follows the last `.` of a file name, unless that dot is its first
/// character or there is none.
pub open spec fn name_extension(name: Seq<char>) -> Option<Seq<char>> {
    if last_dot(name) > 0 {
        Some(name.subrange(last_dot(name) + 1, name.len() as int))
    } else {
        None
    }
}

/// A file name without its extension.
pub open spec fn name_stem(name: Seq<char>) -> Seq<char> {
    if last_dot(name) > 0 {
        name.subrange(0, last_dot(name))
    } else {
        name
    }
}

/// The extension of a path's file name.
pub open spec fn extension(s: Seq<char>) -> Option<Seq<char>> {
    match file_name(s) {
        Some(name) => name_extension(name),
        None => None,
    }
}

/// The stem of a path's file name.
pub open spec fn file_stem(s: Seq<char>) -> Option<Seq<char>> {
    match file_name(s) {
        Some(name) => Some(name_stem(name)),
        None => None,
    }
}

/// Whether the components of `base` begin the components of `s`.
pub open spec fn has_prefix(s: Seq<char>, base: Seq<char>) -> bool {
    components(base).is_prefix_of(components(s))
}

/// `name` appended to `dir` with one separator between them; an absolute
/// `name` replaces `dir`.
pub open spec fn joined(dir: Seq<char>, name: Seq<char>) -> Seq<char> {
    if name.len() > 0 && name[0] == '/' {
        name
    } else if dir.len() == 0 || dir.last() == '/' {
        dir + name
    } else {
        dir + seq!['/'] + name
    }
}

/// The texts held by a vector of character vectors.
pub open spec fn views(v: Seq<Vec<char>>) -> Seq<Seq<char>> {
    v.map_values(|x: Vec<char>| x@)
}

proof fn lemma_pieces_nonempty(s: Seq<char>)
    ensures
        pieces(s).len() >= 1,
    decreases s.len(),
{
    if s.len() > 0 {
        lemma_pieces_nonempty(s.drop_last());
    }
}

proof fn lemma_filter_push(s: Seq<Seq<char>>, x: Seq<char>)
    ensures
        s.push(x).filter(|y: Seq<char>| names_entry(y)) == if names_entry(x) {
            s.filter(|y: Seq<char>| names_entry(y)).push(x)
        } else {
            s.filter(|y: Seq<char>| names_entry(y))
        },
{
    reveal(Seq::filter);
    assert(s.push(x).drop_last() =~= s);
}

/// The characters of `v` from index `a` up to `b`.
pub fn chars_between(v: &Vec<char>, a: usize, b: usize) -> (r: Vec<char>)
    requires
        a <= b <= v.len(),
    ensures
        r@ == v@.subrange(a as int, b as int),
{
    let mut r: Vec<char> = Vec::new();
    let mut i: usize = a;
    while i < b
        invariant
            a <= i <= b <= v.len(),
            r@ == v@.subrange(a as int, i as int),
        decreases b - i,
    {
        r.push(v[i]);
        i = i + 1;
    }
    r
}

/// Appends the characters of `v` to `r`.
pub fn push_all(r: &mut Vec<char>, v: &Vec<char>)
    ensures
        final(r)@ == old(r)@ + v@,
{
    let mut i: usize = 0;
    while i < v.len()
        invariant
            i <= v.len(),
            r@ == old(r)@ + v@.subrange(0, i as int),
        decreases v.len() - i,
    {
        r.push(v[i]);
        i = i + 1;
    }
    assert(v@.subrange(0, v.len() as int) =~= v@);
}

/// Whether `a` and `b` hold the same characters.
pub fn same_chars(a: &Vec<char>, b: &Vec<char>) -> (r: bool)
    ensures
        r == (a@ == b@),
{
    if a.len() != b.len() {
        return false;
    }
    let mut i: usize = 0;
    while i < a.len()
        invariant
            a.len() == b.len(),
            i <= a.len(),
            a@.subrange(0, i as int) == b@.subrange(0, i as int),
        decreases a.len() - i,
    {
        if a[i] != b[i] {
            return false;
        }
        assert(a@.subrange(0, i + 1) =~= a@.subrange(0, i as int).push(a@[i as int]));
        assert(b@.subrange(0, i + 1) =~= b@.subrange(0, i as int).push(b@[i as int]));
        i = i + 1;
    }
    assert(a@.subrange(0, a.len() as int) =~= a@);
    assert(b@.subrange(0, b.len() as int) =~= b@);
    true
}

/// Splits `s` at every separator.
fn split_pieces(s: &Vec<char>) -> (r: Vec<Vec<char>>)
    ensures
        views(r@) == pieces(s@),
{
    let mut done: Vec<Vec<char>> = Vec::new();
    let mut cur: Vec<char> = Vec::new();
    let mut i: usize = 0;
    assert(s@.subrange(0, 0) =~= Seq::<char>::empty());
    assert(views(done@) + seq![cur@] =~= pieces(Seq::<char>::empty()));
    while i < s.len()
        invariant
            i <= s.len(),
            views(done@) + seq![cur@] == pieces(s@.subrange(0, i as int)),
        decreases s.len() - i,
    {
        let c = s[i];
        let ghost pre = s@.subrange(0, i as int);
        assert(s@.subrange(0, i + 1).drop_last() =~= pre);
        proof {
            lemma_pieces_nonempty(pre);
        }
        if c == '/' {
            let piece = cur;
            done.push(piece);
            cur = Vec::new();
            assert(views(done@) + seq![cur@] =~= pieces(pre).push(Seq::empty()));
        } else {
            cur.push(c);
            let ghost p = pieces(pre);
            assert(views(done@) + seq![cur@] =~= p.update(p.len() - 1, p.last().push(c)));
        }
        i = i + 1;
    }
    assert(s@.subrange(0, s.len() as int) =~= s@);
    done.push(cur);
    assert(views(done@) =~= pieces(s@));
    done
}

/// The components of `s`, as `components` describes them.
fn components_of(s: &Vec<char>) -> (r: Vec<Vec<char>>)
    ensures
        views(r@) == components(s@),
{
    let p = split_pieces(s);
    proof {
        lemma_pieces_nonempty(s@);
    }
    let mut r: Vec<Vec<char>> = Vec::new();
    if s.len() > 0 && s[0] == '/' {
        let mut root: Vec<char> = Vec::new();
        root.push('/');
        r.push(root);
    }
    assert(views(r@) =~= root_part(s@));
    let ghost after_root = views(r@);
    assert(p@[0]@ == pieces(s@)[0]);
    if p[0].len() == 1 && p[0][0] == '.' {
        let mut dot: Vec<char> = Vec::new();
        dot.push('.');
        r.push(dot);
        assert(p@[0]@ =~= seq!['.']);
        assert(views(r@) =~= after_root.push(seq!['.']));
    } else {
        assert(pieces(s@)[0] != seq!['.']) by {
            if pieces(s@)[0] == seq!['.'] {
                assert(pieces(s@)[0].len() == 1 && pieces(s@)[0][0] == '.');
            }
        }
    }
    let ghost head = views(r@);
    assert(head =~= root_part(s@) + lead_part(s@));
    let mut k: usize = 0;
    assert(views(p@).subrange(0, 0) =~= Seq::<Seq<char>>::empty());
    proof {
        reveal(Seq::filter);
    }
    while k < p.len()
        invariant
            k <= p.len(),
            views(p@) == pieces(s@),
            views(r@) == head + views(p@).subrange(0, k as int).filter(
                |x: Seq<char>| names_entry(x),
            ),
        decreases p.len() - k,
    {
        let ghost before = views(p@).subrange(0, k as int);
        assert(views(p@).subrange(0, k + 1) =~= before.push(p@[k as int]@));
        proof {
            lemma_filter_push(before, p@[k as int]@);
        }
        let piece = &p[k];
        if piece.len() > 0 && !(piece.len() == 1 && piece[0] == '.') {
            assert(names_entry(piece@)) by {
                if piece@ == seq!['.'] {
                    assert(piece@.len() == 1);
                }
            }
            let ghost r0 = r@;
            assert(piece@.subrange(0, piece@.len() as int) =~= piece@);
            r.push(chars_between(piece, 0, piece.len()));
            assert(views(r@) =~= views(r0).push(piece@));
            assert(views(r@) =~= head + before.filter(|x: Seq<char>| names_entry(x)).push(piece@));
        } else {
            assert(!names_entry(piece@)) by {
                if piece.len() > 0 {
                    assert(piece@ =~= seq!['.']);
                }
            }
        }
        k = k + 1;
    }
    assert(views(p@).subrange(0, p.len() as int) =~= views(p@));
    r
}

/// The file name of `s`, when its last component is an ordinary name.
pub fn file_name_of(s: &Vec<char>) -> (r: Option<Vec<char>>)
    ensures
        match r {
            Some(v) => file_name(s@) == Some(v@),
            None => file_name(s@) is None,
        },
{
    let mut c = components_of(s);
    if c.len() == 0 {
        return None;
    }
    let ghost cv = views(c@);
    let last = c.pop().unwrap();
    assert(last@ == cv.last());
    let special = (last.len() == 1 && (last[0] == '/' || last[0] == '.')) || (last.len() == 2
        && last[0] == '.' && last[1] == '.');
    if special {
        assert(last@ =~= seq!['/'] || last@ =~= seq!['.'] || last@ =~= seq!['.', '.']);
        None
    } else {
        assert(last@ != seq!['/'] && last@ != seq!['.'] && last@ != seq!['.', '.']) by {
            if last@ == seq!['/'] || last@ == seq!['.'] {
                assert(last@.len() == 1);
            }
            if last@ == seq!['.', '.'] {
                assert(last@.len() == 2);
            }
        }
        Some(last)
    }
}

/// The position of the last `.` in `name`.
pub fn last_dot_of(name: &Vec<char>) -> (r: Option<usize>)
    ensures
        match r {
            Some(d) => last_dot(name@) == d as int && d < name.len(),
            None => last_dot(name@) == -1,
        },
{
    let mut j: usize = name.len();
    assert(name@.subrange(0, j as int) =~= name@);
    while j > 0
        invariant
            j <= name.len(),
            last_dot(name@) == last_dot(name@.subrange(0, j as int)),
        decreases j,
    {
        assert(name@.subrange(0, j as int).drop_last() =~= name@.subrange(0, j - 1));
        if name[j - 1] == '.' {
            return Some(j - 1);
        }
        j = j - 1;
    }
    None
}

/// The extension of a file name.
pub fn name_extension_of(name: &Vec<char>) -> (r: Option<Vec<char>>)
    ensures
        match r {
            Some(v) => name_extension(name@) == Some(v@),
            None => name_extension(name@) is None,
        },
{
    match last_dot_of(name) {
        Some(d) => {
            if d > 0 {
                Some(chars_between(name, d + 1, name.len()))
            } else {
                None
            }
        },
        None => None,
    }
}

/// The stem of a file name.
pub fn name_stem_of(name: &Vec<char>) -> (r: Vec<char>)
    ensures
        r@ == name_stem(name@),
{
    match last_dot_of(name) {
        Some(d) => {
            if d > 0 {
                chars_between(name, 0, d)
            } else {
                chars_between(name, 0, name.len())
            }
        },
        None => chars_between(name, 0, name.len()),
    }
}

/// Whether the components of `base` begin the components of `s`.
pub fn starts_with_components(s: &Vec<char>, base: &Vec<char>) -> (r: bool)
    ensures
        r == has_prefix(s@, base@),
{
    let cs = components_of(s);
    let cb = components_of(base);
    if cb.len() > cs.len() {
        return false;
    }
    let mut i: usize = 0;
    while i < cb.len()
        invariant
            cb.len() <= cs.len(),
            i <= cb.len(),
            views(cs@) == components(s@),
            views(cb@) == components(base@),
            forall|k: int| 0 <= k < i ==> cb@[k]@ == cs@[k]@,
        decreases cb.len() - i,
    {
        if !same_chars(&cb[i], &cs[i]) {
            assert(views(cb@)[i as int] != views(cs@).subrange(0, cb.len() as int)[i as int]);
            return false;
        }
        i = i + 1;
    }
    assert(views(cb@) =~= views(cs@).subrange(0, cb.len() as int));
    true
}

/// `name` joined onto `dir`, as `joined` describes it.
pub fn join_chars(dir: &Vec<char>, name: &Vec<char>) -> (r: Vec<char>)
    ensures
        r@ == joined(dir@, name@),
{
    if name.len() > 0 && name[0] == '/' {
        return chars_between(name, 0, name.len());
    }
    let mut r = chars_between(dir, 0, dir.len());
    if dir.len() > 0 && dir[dir.len() - 1] != '/' {
        r.push('/');
    }
    push_all(&mut r, name);
    r
}

/// Relies on `String`'s `FromIterator<&char>`: the characters are collected
/// in order.
#[verifier::external_body]
pub(crate) fn string_of(v: &Vec<char>) -> (r: String)
    ensures
        r@ == v@,
{
    v.iter().collect()
}

proof fn lemma_pieces_append(a: Seq<char>, n: Seq<char>)
    requires
        !n.contains('/'),
    ensures
        pieces(a + n) == pieces(a).update(pieces(a).len() - 1, pieces(a).last() + n),
    decreases n.len(),
{
    lemma_pieces_nonempty(a);
    if n.len() == 0 {
        assert(a + n =~= a);
        assert(pieces(a).last() + n =~= pieces(a).last());
        assert(pieces(a).update(pieces(a).len() - 1, pieces(a).last()) =~= pieces(a));
    } else {
        let m = n.drop_last();
        assert(!m.contains('/')) by {
            if m.contains('/') {
                let i = choose|i: int| 0 <= i < m.len() && m[i] == '/';
                assert(n[i] == '/');
            }
        }
        assert(n.last() != '/') by {
            assert(n[n.len() - 1] == n.last());
        }
        lemma_pieces_append(a, m);
        assert((a + n).drop_last() =~= a + m);
        assert((a + n).last() == n.last());
        assert((pieces(a).last() + m).push(n.last()) =~= pieces(a).last() + n);
        assert(pieces(a + n) =~= pieces(a).update(pieces(a).len() - 1, pieces(a).last() + n));
    }
}

/// Joining a plain name onto a folder makes that name the path's last piece,
/// after the pieces that count in the folder itself.
proof fn lemma_joined_pieces(dir: Seq<char>, name: Seq<char>) -> (front: Seq<Seq<char>>)
    requires
        !name.contains('/'),
    ensures
        pieces(joined(dir, name)) == front.push(name),
        front.filter(|x: Seq<char>| names_entry(x)) == pieces(dir).filter(
            |x: Seq<char>| names_entry(x),
        ),
        front.len() > 0 ==> front[0] == pieces(dir)[0],
        front.len() == 0 ==> dir.len() == 0,
{
    if name.len() > 0 && name[0] == '/' {
        assert(name.contains(name[0]));
    }
    if dir.len() == 0 {
        lemma_pieces_append(dir, name);
        assert(pieces(dir) =~= seq![Seq::<char>::empty()]);
        assert(dir + name =~= name);
        assert(Seq::<char>::empty() + name =~= name);
        assert(pieces(joined(dir, name)) =~= Seq::<Seq<char>>::empty().push(name));
        lemma_filter_push(Seq::empty(), Seq::empty());
        assert(Seq::<Seq<char>>::empty().push(Seq::<char>::empty()) =~= pieces(dir));
        reveal(Seq::filter);
        Seq::empty()
    } else if dir.last() == '/' {
        lemma_pieces_append(dir, name);
        assert(dir.drop_last().push('/') =~= dir);
        let front = pieces(dir.drop_last());
        assert(pieces(dir) == front.push(Seq::empty()));
        assert(Seq::<char>::empty() + name =~= name);
        assert(pieces(joined(dir, name)) =~= front.push(name));
        lemma_filter_push(front, Seq::empty());
        lemma_pieces_nonempty(dir.drop_last());
        front
    } else {
        let d = dir + seq!['/'];
        lemma_pieces_append(d, name);
        assert(d.drop_last() =~= dir);
        assert(joined(dir, name) =~= d + name);
        assert(Seq::<char>::empty() + name =~= name);
        assert(pieces(joined(dir, name)) =~= pieces(dir).push(name));
        lemma_pieces_nonempty(dir);
        pieces(dir)
    }
}


/// A plain name joined onto a folder lies within that folder, as its last
/// component: it cannot climb out or land elsewhere.
pub proof fn lemma_child_is_within(folder: Seq<char>, name: Seq<char>)
    requires
        name.len() > 0,
        !name.contains('/'),
        name != seq!['.'],
        name != seq!['.', '.'],
    ensures
        components(joined(folder, name)) == components(folder).push(name),
        has_prefix(joined(folder, name), folder),
        file_name(joined(folder, name)) == Some(name),
{
    let path = joined(folder, name);
    let front = lemma_joined_pieces(folder, name);
    lemma_pieces_nonempty(folder);
    lemma_filter_push(front, name);
    if folder.len() > 0 {
        assert(path[0] == folder[0]);
    } else if name[0] == '/' {
        assert(name.contains(name[0]));
    }
    assert(root_part(path) == root_part(folder));
    if front.len() == 0 {
        assert(pieces(path) =~= seq![name]);
        assert(pieces(folder) =~= seq![Seq::<char>::empty()]);
        assert(pieces(folder)[0] != seq!['.']) by {
            assert(pieces(folder)[0].len() == 0);
        }
    } else {
        assert(pieces(path)[0] == front[0]);
    }
    assert(lead_part(path) == lead_part(folder));
    assert(components(path) =~= components(folder).push(name));
    assert(components(folder).is_prefix_of(components(path))) by {
        assert(components(path).subrange(0, components(folder).len() as int) =~= components(
            folder,
        ));
    }
    assert(name != seq!['/']) by {
        assert(name.contains(name[0]) || name.len() != 1);
    }
}

} // verus!

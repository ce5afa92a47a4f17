use vstd::prelude::*;

verus! {

/// The raw `/`-separated pieces of a path, empty pieces included.
pub open spec fn split_path(s: Seq<char>) -> Seq<Seq<char>>
    decreases s.len(),
{
    if s.len() == 0 {
        seq![Seq::<char>::empty()]
    } else {
        let p = split_path(s.drop_last());
        if s.last() == '/' {
            p.push(Seq::<char>::empty())
        } else {
            p.update(p.len() - 1, p.last().push(s.last()))
        }
    }
}

pub open spec fn dot() -> Seq<char> {
    seq!['.']
}

pub open spec fn dot_dot() -> Seq<char> {
    seq!['.', '.']
}

/// One lexical resolution step: empty and `.` pieces vanish, `..` removes the
/// previous named piece (or is kept when there is none to remove).
pub open spec fn resolve_step(stack: Seq<Seq<char>>, piece: Seq<char>) -> Seq<Seq<char>> {
    if piece.len() == 0 || piece == dot() {
        stack
    } else if piece == dot_dot() {
        if stack.len() > 0 && stack.last() != dot_dot() {
            stack.drop_last()
        } else {
            stack.push(dot_dot())
        }
    } else {
        stack.push(piece)
    }
}

/// The pieces of a path after lexical resolution of `.` and `..`.
pub open spec fn resolve_pieces(pieces: Seq<Seq<char>>) -> Seq<Seq<char>>
    decreases pieces.len(),
{
    if pieces.len() == 0 {
        Seq::empty()
    } else {
        resolve_step(resolve_pieces(pieces.drop_last()), pieces.last())
    }
}

pub open spec fn normal_form(s: Seq<char>) -> Seq<Seq<char>> {
    resolve_pieces(split_path(s))
}

pub open spec fn is_absolute(s: Seq<char>) -> bool {
    s.len() > 0 && s[0] == '/'
}

/// `candidate` joined onto `base`: an absolute candidate replaces the base.
pub open spec fn join_path(base: Seq<char>, candidate: Seq<char>) -> Seq<char> {
    if is_absolute(candidate) || base.len() == 0 {
        candidate
    } else if base.last() == '/' {
        base + candidate
    } else {
        base + seq!['/'] + candidate
    }
}

/// `full` lies inside `base` once both are lexically resolved: the base's
/// pieces start those of `full`, and what follows them does not climb out
/// with `..` (which matters for a base such as `.` or `..`).
pub open spec fn path_within(base: Seq<char>, full: Seq<char>) -> bool {
    let b = normal_form(base);
    let f = normal_form(full);
    &&& is_absolute(base) == is_absolute(full)
    &&& b.len() <= f.len()
    &&& f.subrange(0, b.len() as int) == b
    &&& (f.len() == b.len() || f[b.len() as int] != dot_dot())
}

/// The sandboxed form of `candidate` under `base`; a path that would leave
/// `base` falls back to `base` itself.
pub open spec fn sandboxed(base: Seq<char>, candidate: Seq<char>) -> Seq<char> {
    if path_within(base, join_path(base, candidate)) {
        join_path(base, candidate)
    } else {
        base
    }
}

fn split_pieces(s: &str) -> (r: Vec<String>)
    ensures
        r@.map_values(|p: String| p@) == split_path(s@),
{
    let n = s.unicode_len();
    let mut parts: Vec<String> = Vec::new();
    let mut start: usize = 0;
    let mut i: usize = 0;
    assert(s@.take(0) =~= Seq::<char>::empty());
    assert(parts@.map_values(|p: String| p@).push(s@.subrange(0, 0)) =~= seq![
        Seq::<char>::empty(),
    ]);
    while i < n
        invariant
            n == s@.len(),
            start <= i <= n,
            split_path(s@.take(i as int)) == parts@.map_values(|p: String| p@).push(
                s@.subrange(start as int, i as int),
            ),
        decreases n - i,
    {
        let c = s.get_char(i);
        assert(s@.take(i + 1).drop_last() =~= s@.take(i as int));
        let ghost old_map = parts@.map_values(|p: String| p@);
        if c == '/' {
            let piece = String::from_str(s.substring_char(start, i));
            parts.push(piece);
            assert(parts@.map_values(|p: String| p@) =~= old_map.push(
                s@.subrange(start as int, i as int),
            ));
            start = i + 1;
            assert(s@.subrange(start as int, i + 1) =~= Seq::<char>::empty());
            assert(parts@.map_values(|p: String| p@).push(s@.subrange(start as int, i + 1))
                =~= split_path(s@.take(i as int)).push(Seq::<char>::empty()));
        } else {
            assert(s@.subrange(start as int, i + 1) =~= s@.subrange(start as int, i as int).push(c));
            assert(parts@.map_values(|p: String| p@).push(s@.subrange(start as int, i + 1))
                =~= split_path(s@.take(i as int)).update(
                    split_path(s@.take(i as int)).len() - 1,
                    split_path(s@.take(i as int)).last().push(c),
                ));
        }
        i = i + 1;
    }
    let last = String::from_str(s.substring_char(start, n));
    parts.push(last);
    assert(s@.take(n as int) =~= s@);
    assert(parts@.map_values(|p: String| p@) =~= split_path(s@));
    parts
}

fn equals_chars(s: &String, t: Ghost<Seq<char>>, len: usize, c0: char, c1: char) -> (r: bool)
    requires
        1 <= len <= 2,
        t@ == (if len == 1 { seq![c0] } else { seq![c0, c1] }),
    ensures
        r == (s@ == t@),
{
    let n = s.as_str().unicode_len();
    if n != len {
        return false;
    }
    let a = s.as_str().get_char(0);
    if a != c0 {
        return false;
    }
    if len == 2 {
        let b = s.as_str().get_char(1);
        if b != c1 {
            return false;
        }
    }
    assert(s@ =~= t@);
    true
}

fn resolve(pieces: &Vec<String>) -> (r: Vec<String>)
    ensures
        r@.map_values(|p: String| p@) == resolve_pieces(pieces@.map_values(|p: String| p@)),
{
    let ghost views = pieces@.map_values(|p: String| p@);
    let mut stack: Vec<String> = Vec::new();
    let mut i: usize = 0;
    while i < pieces.len()
        invariant
            i <= pieces.len(),
            views == pieces@.map_values(|p: String| p@),
            stack@.map_values(|p: String| p@) == resolve_pieces(views.take(i as int)),
        decreases pieces.len() - i,
    {
        let piece = &pieces[i];
        assert(views.take(i + 1).drop_last() =~= views.take(i as int));
        assert(views[i as int] == piece@);
        let ghost before = stack@.map_values(|p: String| p@);
        if piece.as_str().unicode_len() == 0 || equals_chars(piece, Ghost(dot()), 1, '.', '.') {
        } else if equals_chars(piece, Ghost(dot_dot()), 2, '.', '.') {
            let k = stack.len();
            let pop = if k > 0 {
                !equals_chars(&stack[k - 1], Ghost(dot_dot()), 2, '.', '.')
            } else {
                false
            };
            if pop {
                stack.pop();
                assert(stack@.map_values(|p: String| p@) =~= before.drop_last());
            } else {
                let mut dd = String::new();
                dd.append(piece.as_str());
                stack.push(dd);
                assert(stack@.map_values(|p: String| p@) =~= before.push(dot_dot()));
            }
        } else {
            let mut copy = String::new();
            copy.append(piece.as_str());
            stack.push(copy);
            assert(stack@.map_values(|p: String| p@) =~= before.push(piece@));
        }
        i = i + 1;
    }
    assert(views.take(pieces.len() as int) =~= views);
    stack
}

fn normalize(s: &str) -> (r: Vec<String>)
    ensures
        r@.map_values(|p: String| p@) == normal_form(s@),
{
    let pieces = split_pieces(s);
    resolve(&pieces)
}

fn pieces_prefix(a: &Vec<String>, b: &Vec<String>) -> (r: bool)
    ensures
        r == (a@.len() <= b@.len() && b@.map_values(|p: String| p@).subrange(0, a@.len() as int)
            == a@.map_values(|p: String| p@)),
{
    let ghost av = a@.map_values(|p: String| p@);
    let ghost bv = b@.map_values(|p: String| p@);
    if a.len() > b.len() {
        return false;
    }
    let mut i: usize = 0;
    while i < a.len()
        invariant
            a.len() <= b.len(),
            i <= a.len(),
            av == a@.map_values(|p: String| p@),
            bv == b@.map_values(|p: String| p@),
            forall|j: int| 0 <= j < i ==> av[j] == bv[j],
        decreases a.len() - i,
    {
        if a[i] != b[i] {
            assert(bv.subrange(0, a@.len() as int)[i as int] != av[i as int]);
            return false;
        }
        i = i + 1;
    }
    assert(bv.subrange(0, a@.len() as int) =~= av);
    true
}

fn starts_with_slash(s: &str) -> (r: bool)
    ensures
        r == is_absolute(s@),
{
    s.unicode_len() > 0 && s.get_char(0) == '/'
}

fn join(base: &str, candidate: &str) -> (r: String)
    ensures
        r@ == join_path(base@, candidate@),
{
    let n = base.unicode_len();
    let mut out = String::new();
    if starts_with_slash(candidate) || n == 0 {
        out.append(candidate);
        assert(out@ =~= candidate@);
    } else if base.get_char(n - 1) == '/' {
        out.append(base);
        out.append(candidate);
    } else {
        out.append(base);
        proof {
            reveal_strlit("/");
        }
        out.append("/");
        out.append(candidate);
    }
    out
}

/// Joins `path` onto `base_path`; when the lexically resolved result would not
/// lie inside `base_path`, the base itself is returned instead (fail-open).
pub fn ensure_path_within_project(base_path: &str, path: &str) -> (r: String)
    ensures
        r@ == sandboxed(base_path@, path@),
        !path_within(base_path@, join_path(base_path@, path@)) ==> r@ == base_path@,
{
    let full = join(base_path, path);
    let base_pieces = normalize(base_path);
    let full_pieces = normalize(full.as_str());
    let contained = starts_with_slash(base_path) == starts_with_slash(full.as_str())
        && pieces_prefix(&base_pieces, &full_pieces) && (full_pieces.len() == base_pieces.len()
        || !equals_chars(&full_pieces[base_pieces.len()], Ghost(dot_dot()), 2, '.', '.'));
    if contained {
        full
    } else {
        String::from_str(base_path)
    }
}

} // verus!

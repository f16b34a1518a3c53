//! Lexical path handling for Unix paths: normalization, joining, components
//! and prefix stripping, each with a specification over character sequences.

use vstd::prelude::*;
use crate::text::{
    chars_concat, chars_eq, chars_slice, chars_starts_with, from_chars, has_prefix, join_chars,
    join_spec, lemma_split_concat,
    lemma_split_join, lemma_split_no_sep, lemma_split_nonempty, seqs_of, split_chars, split_spec,
    to_chars,
};

verus! {

/// The component `..`.
pub open spec fn dotdot() -> Seq<char> {
    seq!['.', '.']
}

/// A path is absolute when it starts with `/`.
pub open spec fn is_absolute_spec(s: Seq<char>) -> bool {
    s.len() > 0 && s[0] == '/'
}

/// One step of lexical normalization: empty pieces and `.` vanish, `..`
/// removes the previous component (or stays, in a relative path with nothing
/// left to remove, and is dropped at the root of an absolute path), and any
/// other piece is kept.
pub open spec fn norm_step(st: Seq<Seq<char>>, p: Seq<char>, abs: bool) -> Seq<Seq<char>> {
    if p.len() == 0 || p == seq!['.'] {
        st
    } else if p == dotdot() {
        if st.len() > 0 {
            if st.last() == dotdot() {
                st.push(dotdot())
            } else {
                st.drop_last()
            }
        } else if !abs {
            st.push(dotdot())
        } else {
            st
        }
    } else {
        st.push(p)
    }
}

/// Normalization of the pieces `ps`, starting from the components `init`.
pub open spec fn norm_from(init: Seq<Seq<char>>, ps: Seq<Seq<char>>, abs: bool) -> Seq<Seq<char>>
    decreases ps.len(),
{
    if ps.len() == 0 {
        init
    } else {
        norm_step(norm_from(init, ps.drop_last(), abs), ps.last(), abs)
    }
}

/// The normalized components of the path `s`.
pub open spec fn norm_components(s: Seq<char>) -> Seq<Seq<char>> {
    norm_from(Seq::empty(), split_spec(s, '/'), is_absolute_spec(s))
}

/// The lexically normalized form of the path `s`: `/` followed by the
/// components for an absolute path, the components alone for a relative one,
/// and `.` when that would be empty.
pub open spec fn normalize_spec(s: Seq<char>) -> Seq<char> {
    let body = join_spec(norm_components(s), '/');
    let r = if is_absolute_spec(s) {
        seq!['/'] + body
    } else {
        body
    };
    if r.len() == 0 {
        seq!['.']
    } else {
        r
    }
}

/// The lexically normalized form of `path` (`.` and empty components removed,
/// `..` resolved against the components before it).
pub fn normalize_path(path: &str) -> (r: String)
    ensures
        r@ == normalize_spec(path@),
{
    let chars = to_chars(path);
    let abs = chars.len() > 0 && chars[0] == '/';
    let pieces = split_chars(&chars, '/');
    let dot: Vec<char> = vec!['.'];
    let dd: Vec<char> = vec!['.', '.'];
    assert(dot@ =~= seq!['.']);
    assert(dd@ =~= dotdot());
    let mut stack: Vec<Vec<char>> = Vec::new();
    for i in 0..pieces.len()
        invariant
            seqs_of(pieces@) == split_spec(chars@, '/'),
            abs == is_absolute_spec(chars@),
            dot@ == seq!['.'],
            dd@ == dotdot(),
            seqs_of(stack@) == norm_from(Seq::empty(), seqs_of(pieces@).take(i as int), abs),
    {
        let ghost ps = seqs_of(pieces@);
        assert(ps.take(i + 1).drop_last() =~= ps.take(i as int));
        assert(ps.take(i + 1).last() == pieces[i as int]@);
        let p = &pieces[i];
        if p.len() == 0 || chars_eq(p, &dot) {
        } else if chars_eq(p, &dd) {
            if stack.len() > 0 {
                let top = stack.len() - 1;
                if chars_eq(&stack[top], &dd) {
                    let ghost before = seqs_of(stack@);
                    stack.push(dd.clone());
                    assert(seqs_of(stack@) =~= before.push(dotdot()));
                } else {
                    let ghost before = seqs_of(stack@);
                    stack.pop();
                    assert(seqs_of(stack@) =~= before.drop_last());
                }
            } else if !abs {
                let ghost before = seqs_of(stack@);
                stack.push(dd.clone());
                assert(seqs_of(stack@) =~= before.push(dotdot()));
            }
        } else {
            let ghost before = seqs_of(stack@);
            stack.push(p.clone());
            assert(seqs_of(stack@) =~= before.push(p@));
        }
    }
    assert(seqs_of(pieces@).take(pieces.len() as int) =~= seqs_of(pieces@));
    let body = join_chars(&stack, '/');
    let res = if abs {
        let slash: Vec<char> = vec!['/'];
        assert(slash@ =~= seq!['/']);
        chars_concat(&slash, &body)
    } else {
        body
    };
    if res.len() == 0 {
        let d: Vec<char> = vec!['.'];
        assert(d@ =~= seq!['.']);
        from_chars(&d)
    } else {
        from_chars(&res)
    }
}

/// The shape of a normalized component list: no empty, `/`-containing or `.`
/// component, every `..` before every other component, and no `..` at all in
/// an absolute path.
pub open spec fn normal_form(st: Seq<Seq<char>>, abs: bool) -> bool {
    &&& forall|i: int|
        0 <= i < st.len() ==> (#[trigger] st[i]).len() > 0 && !st[i].contains('/') && st[i]
            != seq!['.']
    &&& forall|i: int, j: int| 0 <= i < j < st.len() && st[j] == dotdot() ==> st[i] == dotdot()
    &&& abs ==> forall|i: int| 0 <= i < st.len() ==> st[i] != dotdot()
}

/// No piece produced by splitting at a separator contains that separator.
pub proof fn lemma_split_pieces_free(s: Seq<char>, sep: char)
    ensures
        forall|i: int|
            0 <= i < split_spec(s, sep).len() ==> !(#[trigger] split_spec(s, sep)[i]).contains(sep),
    decreases s.len(),
{
    if s.len() > 0 {
        lemma_split_pieces_free(s.drop_last(), sep);
        lemma_split_nonempty(s.drop_last(), sep);
        let prev = split_spec(s.drop_last(), sep);
        if s.last() != sep {
            let last = prev.last().push(s.last());
            assert(!last.contains(sep)) by {
                if last.contains(sep) {
                    let k = choose|k: int| 0 <= k < last.len() && last[k] == sep;
                    if k < prev.last().len() {
                        assert(prev.last()[k] == sep);
                        assert(prev[prev.len() - 1] == prev.last());
                    }
                }
            }
        }
    }
}

/// Normalization keeps a component list in normal form.
pub proof fn lemma_norm_from_normal(init: Seq<Seq<char>>, ps: Seq<Seq<char>>, abs: bool)
    requires
        normal_form(init, abs),
        forall|i: int| 0 <= i < ps.len() ==> !(#[trigger] ps[i]).contains('/'),
    ensures
        normal_form(norm_from(init, ps, abs), abs),
    decreases ps.len(),
{
    if ps.len() > 0 {
        lemma_norm_from_normal(init, ps.drop_last(), abs);
        let st = norm_from(init, ps.drop_last(), abs);
        let p = ps.last();
        assert(ps[ps.len() - 1] == p);
        let r = norm_step(st, p, abs);
        if p.len() == 0 || p == seq!['.'] {
        } else if p == dotdot() {
            if st.len() > 0 {
                if st.last() == dotdot() {
                    assert(st[st.len() - 1] == dotdot());
                    assert forall|i: int, j: int|
                        0 <= i < j < r.len() && r[j] == dotdot() implies r[i] == dotdot() by {
                        assert(r[i] == st[i] || i == st.len());
                    }
                    assert(!abs);
                } else {
                    assert forall|i: int, j: int|
                        0 <= i < j < r.len() && r[j] == dotdot() implies r[i] == dotdot() by {
                        assert(r[i] == st[i] && r[j] == st[j]);
                    }
                }
            } else {
                assert(dotdot().len() > 0);
                assert(!dotdot().contains('/')) by {
                    if dotdot().contains('/') {
                        let k = choose|k: int| 0 <= k < 2 && dotdot()[k] == '/';
                    }
                }
                assert(dotdot() != seq!['.']) by {
                    assert(dotdot().len() != seq!['.'].len());
                }
            }
        } else {
            assert forall|i: int, j: int|
                0 <= i < j < r.len() && r[j] == dotdot() implies r[i] == dotdot() by {
                assert(r[i] == st[i]);
                assert(j < st.len());
                assert(r[j] == st[j]);
            }
        }
    }
}

/// Normalizing from `init` over `a + b` is normalizing over `a`, then over `b`.
pub proof fn lemma_norm_from_concat(
    init: Seq<Seq<char>>,
    a: Seq<Seq<char>>,
    b: Seq<Seq<char>>,
    abs: bool,
)
    ensures
        norm_from(init, a + b, abs) == norm_from(norm_from(init, a, abs), b, abs),
    decreases b.len(),
{
    if b.len() == 0 {
        assert(a + b =~= a);
    } else {
        assert((a + b).drop_last() =~= a + b.drop_last());
        assert((a + b).last() == b.last());
        lemma_norm_from_concat(init, a, b.drop_last(), abs);
    }
}

/// A component list in normal form normalizes to itself.
pub proof fn lemma_norm_fixed(st: Seq<Seq<char>>, abs: bool)
    requires
        normal_form(st, abs),
    ensures
        norm_from(Seq::empty(), st, abs) == st,
    decreases st.len(),
{
    if st.len() > 0 {
        let init = st.drop_last();
        assert(normal_form(init, abs)) by {
            assert forall|i: int| 0 <= i < init.len() implies (#[trigger] init[i]).len() > 0
                && !init[i].contains('/') && init[i] != seq!['.'] by {
                assert(init[i] == st[i]);
            }
            assert forall|i: int, j: int|
                0 <= i < j < init.len() && init[j] == dotdot() implies init[i] == dotdot() by {
                assert(init[i] == st[i] && init[j] == st[j]);
            }
            if abs {
                assert forall|i: int| 0 <= i < init.len() implies init[i] != dotdot() by {
                    assert(init[i] == st[i]);
                }
            }
        }
        lemma_norm_fixed(init, abs);
        let p = st.last();
        assert(st[st.len() - 1] == p);
        assert(p.len() > 0 && p != seq!['.']);
        if p == dotdot() {
            assert(!abs);
            if init.len() > 0 {
                assert(init.last() == init[init.len() - 1]);
                assert(init[init.len() - 1] == st[init.len() - 1]);
            }
        }
        assert(init.push(p) =~= st);
    }
}

/// The first character of a join is the first character of its first piece.
pub proof fn lemma_join_first(xs: Seq<Seq<char>>, sep: char)
    requires
        xs.len() >= 1,
        xs[0].len() > 0,
    ensures
        join_spec(xs, sep).len() > 0,
        join_spec(xs, sep)[0] == xs[0][0],
    decreases xs.len(),
{
    if xs.len() > 1 {
        lemma_join_first(xs.drop_last(), sep);
        assert(xs.drop_last()[0] == xs[0]);
    }
}

/// Law: normalizing a path is idempotent; a normalized path is its own
/// normal form.
pub proof fn normalize_idempotent(s: Seq<char>)
    ensures
        normalize_spec(normalize_spec(s)) == normalize_spec(s),
{
    let abs = is_absolute_spec(s);
    let pieces = split_spec(s, '/');
    lemma_split_pieces_free(s, '/');
    lemma_norm_from_normal(Seq::empty(), pieces, abs);
    let st = norm_components(s);
    let body = join_spec(st, '/');
    let r = normalize_spec(s);
    if st.len() == 0 {
        if abs {
            assert(r =~= seq!['/']);
            assert(r =~= Seq::<char>::empty().push('/') + Seq::<char>::empty());
            lemma_split_concat(Seq::<char>::empty(), Seq::<char>::empty(), '/');
            assert(split_spec(r, '/') =~= seq![Seq::<char>::empty(), Seq::<char>::empty()]);
            assert(is_absolute_spec(r));
            let e = Seq::<Seq<char>>::empty();
            assert(seq![Seq::<char>::empty(), Seq::<char>::empty()].drop_last() =~= seq![
                Seq::<char>::empty(),
            ]);
            assert(seq![Seq::<char>::empty()].drop_last() =~= e);
            let one = seq![Seq::<char>::empty()];
            assert(norm_from(e, e, abs) == e);
            assert(norm_from(e, one, abs) == norm_step(e, Seq::<char>::empty(), abs));
            assert(norm_from(e, one, abs) =~= e);
            let two = seq![Seq::<char>::empty(), Seq::<char>::empty()];
            assert(two.drop_last() =~= one);
            assert(norm_from(e, two, abs) == norm_step(norm_from(e, one, abs), two.last(), abs));
            assert(norm_components(r) =~= e);
        } else {
            assert(r =~= seq!['.']);
            lemma_split_no_sep(r, '/');
            assert(!is_absolute_spec(r));
            let e = Seq::<Seq<char>>::empty();
            assert(seq![r].drop_last() =~= e);
            assert(norm_from(e, e, false) == e);
            assert(norm_from(e, seq![r], false) == norm_step(e, r, false));
            assert(norm_components(r) =~= e);
        }
    } else {
        lemma_join_first(st, '/');
        lemma_norm_fixed(st, abs);
        lemma_split_join(st, '/');
        if abs {
            assert(r =~= Seq::<char>::empty().push('/') + body);
            lemma_split_concat(Seq::<char>::empty(), body, '/');
            assert(split_spec(r, '/') =~= seq![Seq::<char>::empty()] + st);
            assert(is_absolute_spec(r));
            lemma_norm_from_concat(Seq::empty(), seq![Seq::<char>::empty()], st, abs);
            let e = Seq::<Seq<char>>::empty();
            let one = seq![Seq::<char>::empty()];
            assert(one.drop_last() =~= e);
            assert(norm_from(e, e, abs) == e);
            assert(norm_from(e, one, abs) == norm_step(e, Seq::<char>::empty(), abs));
            assert(norm_from(e, one, abs) =~= e);
            assert(norm_components(r) == st);
        } else {
            assert(r == body);
            assert(st[0].len() > 0 && !st[0].contains('/'));
            assert(r[0] != '/') by {
                if r[0] == '/' {
                    assert(st[0][0] == '/');
                    assert(st[0].contains('/'));
                }
            }
            assert(norm_components(r) == st);
        }
    }
}

/// Law: normalization removes every traversal step. The components of the
/// normal form are never empty, `.` or `/`-containing; every `..` comes
/// before every other component; an absolute path keeps no `..` at all and
/// its normal form is `/` followed by those components.
pub proof fn normalize_removes_traversal(s: Seq<char>)
    ensures
        normal_form(norm_components(s), is_absolute_spec(s)),
        is_absolute_spec(s) ==> normalize_spec(s) == seq!['/'] + join_spec(
            norm_components(s),
            '/',
        ),
{
    lemma_split_pieces_free(s, '/');
    lemma_norm_from_normal(Seq::empty(), split_spec(s, '/'), is_absolute_spec(s));
}

/// `PathBuf::push` on Unix: an absolute `p` replaces the base; otherwise `p`
/// is appended, after a `/` when the base is not empty and does not already
/// end with one.
pub open spec fn push_spec(base: Seq<char>, p: Seq<char>) -> Seq<char> {
    if is_absolute_spec(p) {
        p
    } else if base.len() > 0 && base.last() != '/' {
        base.push('/') + p
    } else {
        base + p
    }
}

/// The path `base` extended by `p` (see [`push_spec`]).
pub fn path_join(base: &Vec<char>, p: &Vec<char>) -> (r: Vec<char>)
    ensures
        r@ == push_spec(base@, p@),
{
    if p.len() > 0 && p[0] == '/' {
        return p.clone();
    }
    if base.len() > 0 && base[base.len() - 1] != '/' {
        let mut b = base.clone();
        b.push('/');
        chars_concat(&b, p)
    } else {
        chars_concat(base, p)
    }
}

/// A piece of a path that is a component: neither empty nor `.`.
pub open spec fn nontrivial(p: Seq<char>) -> bool {
    p.len() > 0 && p != seq!['.']
}

/// The pieces that are components, in order.
pub open spec fn nontrivial_pieces(ps: Seq<Seq<char>>) -> Seq<Seq<char>>
    decreases ps.len(),
{
    if ps.len() == 0 {
        Seq::empty()
    } else if nontrivial(ps.last()) {
        nontrivial_pieces(ps.drop_last()).push(ps.last())
    } else {
        nontrivial_pieces(ps.drop_last())
    }
}

/// The leading component of a path: a root `/`, a current-directory `.`
/// (for `.` and paths starting with `./`), or none.
pub open spec fn start_component(s: Seq<char>) -> Seq<Seq<char>> {
    if is_absolute_spec(s) {
        seq![seq!['/']]
    } else if s == seq!['.'] || has_prefix(s, seq!['.', '/']) {
        seq![seq!['.']]
    } else {
        Seq::empty()
    }
}

/// The pieces of the path after its leading component.
pub open spec fn body_pieces(s: Seq<char>) -> Seq<Seq<char>> {
    split_spec(s.skip(start_component(s).len() as int), '/')
}

/// The components of a path, as `Path::components` yields them (the root
/// written `/`, the leading current directory `.`).
pub open spec fn components_spec(s: Seq<char>) -> Seq<Seq<char>> {
    start_component(s) + nontrivial_pieces(body_pieces(s))
}

/// The pieces from the `m`-th component on (empty when there are fewer).
pub open spec fn from_component(ps: Seq<Seq<char>>, m: nat) -> Seq<Seq<char>>
    decreases ps.len(),
{
    if ps.len() == 0 {
        Seq::empty()
    } else if nontrivial(ps[0]) {
        if m == 0 {
            ps
        } else {
            from_component(ps.drop_first(), (m - 1) as nat)
        }
    } else {
        from_component(ps.drop_first(), m)
    }
}

/// The pieces up to and including the last component.
pub open spec fn trim_trailing(ps: Seq<Seq<char>>) -> Seq<Seq<char>>
    decreases ps.len(),
{
    if ps.len() == 0 {
        Seq::empty()
    } else if nontrivial(ps.last()) {
        ps
    } else {
        trim_trailing(ps.drop_last())
    }
}

/// `Path::strip_prefix` on Unix: when the components of `base` begin those
/// of `s`, the rest of `s` after them, from its next component to its last
/// (an empty `base` only drops trailing empty and `.` pieces).
pub open spec fn strip_prefix_spec(s: Seq<char>, base: Seq<char>) -> Option<Seq<char>> {
    let cs = components_spec(s);
    let cb = components_spec(base);
    if cb.len() <= cs.len() && cs.take(cb.len() as int) == cb {
        let start = start_component(s);
        if cb.len() == 0 {
            Some(s.take(start.len() as int) + join_spec(trim_trailing(body_pieces(s)), '/'))
        } else {
            let m = (cb.len() - start.len()) as nat;
            Some(join_spec(trim_trailing(from_component(body_pieces(s), m)), '/'))
        }
    } else {
        None
    }
}

/// The leading component of a path (see [`start_component`]).
fn start_of(s: &Vec<char>) -> (r: Vec<Vec<char>>)
    ensures
        seqs_of(r@) == start_component(s@),
{
    if s.len() > 0 && s[0] == '/' {
        let inner = vec!['/'];
        assert(inner@ =~= seq!['/']);
        let r = vec![inner];
        assert(seqs_of(r@) =~= seq![seq!['/']]);
        return r;
    }
    let dot_slash: Vec<char> = vec!['.', '/'];
    assert(dot_slash@ =~= seq!['.', '/']);
    let is_dot = s.len() == 1 && s[0] == '.';
    assert(is_dot == (s@ == seq!['.'])) by {
        if s@ == seq!['.'] {
            assert(s@.len() == 1);
        }
        if is_dot {
            assert(s@ =~= seq!['.']);
        }
    }
    if is_dot || chars_starts_with(s, &dot_slash) {
        let inner = vec!['.'];
        assert(inner@ =~= seq!['.']);
        let r = vec![inner];
        assert(seqs_of(r@) =~= seq![seq!['.']]);
        r
    } else {
        let r: Vec<Vec<char>> = Vec::new();
        assert(seqs_of(r@) =~= Seq::<Seq<char>>::empty());
        r
    }
}

/// Whether a piece is a component (see [`nontrivial`]).
fn is_nontrivial(p: &Vec<char>) -> (r: bool)
    ensures
        r == nontrivial(p@),
{
    let dot_only = p.len() == 1 && p[0] == '.';
    assert(dot_only == (p@ == seq!['.'])) by {
        if p@ == seq!['.'] {
            assert(p@.len() == 1);
        }
        if dot_only {
            assert(p@ =~= seq!['.']);
        }
    }
    p.len() > 0 && !dot_only
}

/// The pieces of the path after its leading component.
fn body_of(s: &Vec<char>, start_len: usize) -> (r: Vec<Vec<char>>)
    requires
        start_len == start_component(s@).len(),
    ensures
        seqs_of(r@) == body_pieces(s@),
{
    assert(start_len <= s.len()) by {
        if start_len == 1 {
            assert(s@.len() > 0);
        }
    }
    let body = chars_slice(s, start_len, s.len());
    assert(body@ =~= s@.skip(start_len as int));
    split_chars(&body, '/')
}

/// The components of a path (see [`components_spec`]).
fn components(s: &Vec<char>) -> (r: Vec<Vec<char>>)
    ensures
        seqs_of(r@) == components_spec(s@),
{
    let mut out = start_of(s);
    let start_len = out.len();
    let pieces = body_of(s, start_len);
    let ghost start = seqs_of(out@);
    for i in 0..pieces.len()
        invariant
            seqs_of(out@) == start + nontrivial_pieces(seqs_of(pieces@).take(i as int)),
    {
        let ghost ps = seqs_of(pieces@);
        assert(ps.take(i + 1).drop_last() =~= ps.take(i as int));
        assert(ps.take(i + 1).last() == pieces@[i as int]@);
        let ghost before = seqs_of(out@);
        if is_nontrivial(&pieces[i]) {
            out.push(pieces[i].clone());
            assert(seqs_of(out@) =~= before.push(pieces@[i as int]@));
        }
    }
    assert(seqs_of(pieces@).take(pieces.len() as int) =~= seqs_of(pieces@));
    out
}

/// The pieces up to and including the last component (see [`trim_trailing`]).
fn trimmed(ps: &Vec<Vec<char>>, from: usize) -> (r: Vec<Vec<char>>)
    requires
        from <= ps.len(),
    ensures
        seqs_of(r@) == trim_trailing(seqs_of(ps@).skip(from as int)),
{
    let ghost all = seqs_of(ps@);
    let mut end = ps.len();
    let mut done = false;
    while end > from && !done
        invariant
            from <= end <= ps.len(),
            all == seqs_of(ps@),
            trim_trailing(all.skip(from as int)) == trim_trailing(
                all.subrange(from as int, end as int),
            ),
            done ==> end > from && nontrivial(all[end - 1]),
        decreases 2 * end + if done { 0int } else { 1int },
    {
        let ghost q = all.subrange(from as int, end as int);
        assert(q.last() == ps@[end - 1]@);
        assert(q.drop_last() =~= all.subrange(from as int, end - 1));
        if is_nontrivial(&ps[end - 1]) {
            done = true;
        } else {
            end = end - 1;
        }
    }
    let mut out: Vec<Vec<char>> = Vec::new();
    let mut k = from;
    while k < end
        invariant
            from <= k <= end <= ps.len(),
            all == seqs_of(ps@),
            seqs_of(out@) == all.subrange(from as int, k as int),
        decreases end - k,
    {
        let ghost before = seqs_of(out@);
        out.push(ps[k].clone());
        assert(seqs_of(out@) =~= before.push(all[k as int]));
        assert(all.subrange(from as int, k + 1) =~= all.subrange(from as int, k as int).push(
            all[k as int],
        ));
        k = k + 1;
    }
    proof {
        let q = all.subrange(from as int, end as int);
        if end > from {
            assert(q.last() == all[end - 1]);
            assert(nontrivial(q.last()));
        } else {
            assert(q =~= Seq::<Seq<char>>::empty());
        }
    }
    out
}

/// The path after the components of `base` (see [`strip_prefix_spec`]), or
/// `None` when `base`'s components do not begin those of `s`.
pub fn strip_prefix(s: &Vec<char>, base: &Vec<char>) -> (r: Option<Vec<char>>)
    ensures
        match r {
            Some(v) => strip_prefix_spec(s@, base@) == Some(v@),
            None => strip_prefix_spec(s@, base@) is None,
        },
{
    let cs = components(s);
    let cb = components(base);
    let ghost csv = seqs_of(cs@);
    let ghost cbv = seqs_of(cb@);
    if cb.len() > cs.len() {
        return None;
    }
    for i in 0..cb.len()
        invariant
            cb.len() <= cs.len(),
            csv == seqs_of(cs@),
            cbv == seqs_of(cb@),
            csv == components_spec(s@),
            cbv == components_spec(base@),
            forall|j: int| 0 <= j < i ==> csv[j] == cbv[j],
    {
        assert(csv[i as int] == cs@[i as int]@);
        assert(cbv[i as int] == cb@[i as int]@);
        if !chars_eq(&cs[i], &cb[i]) {
            assert(csv.take(cbv.len() as int)[i as int] != cbv[i as int]);
            return None;
        }
    }
    assert(csv.take(cbv.len() as int) =~= cbv);
    let start = start_of(s);
    let pieces = body_of(s, start.len());
    let ghost pv = seqs_of(pieces@);
    if cb.len() == 0 {
        let head = chars_slice(s, 0, start.len());
        assert(head@ =~= s@.take(start.len() as int));
        assert(pv.skip(0) =~= pv);
        let tail = join_chars(&trimmed(&pieces, 0), '/');
        return Some(chars_concat(&head, &tail));
    }
    assert(cb.len() >= start.len()) by {
        if start.len() == 1 {
            assert(csv[0] == start_component(s@)[0]);
        }
    }
    let m = cb.len() - start.len();
    // find the index of the m-th component among the pieces
    let mut seen: usize = 0;
    let mut idx: usize = 0;
    let mut found = false;
    assert(pv.skip(0) =~= pv);
    while idx < pieces.len() && !found
        invariant
            idx <= pieces.len(),
            pv == seqs_of(pieces@),
            seen <= m,
            found ==> idx < pieces.len() && from_component(pv, m as nat) == pv.skip(idx as int),
            !found ==> from_component(pv, m as nat) == from_component(
                pv.skip(idx as int),
                (m - seen) as nat,
            ),
        decreases 2 * (pieces.len() - idx) + if found { 0int } else { 1int },
    {
        let ghost rest = pv.skip(idx as int);
        assert(rest[0] == pieces@[idx as int]@);
        assert(rest.drop_first() =~= pv.skip(idx + 1));
        if is_nontrivial(&pieces[idx]) {
            if seen == m {
                found = true;
            } else {
                seen = seen + 1;
                idx = idx + 1;
            }
        } else {
            idx = idx + 1;
        }
    }
    if !found {
        assert(idx == pieces.len());
        assert(pv.skip(idx as int) =~= Seq::<Seq<char>>::empty());
        let r: Vec<char> = Vec::new();
        assert(r@ =~= join_spec(trim_trailing(Seq::<Seq<char>>::empty()), '/'));
        return Some(r);
    }
    let kept = trimmed(&pieces, idx);
    Some(join_chars(&kept, '/'))
}

} // verus!

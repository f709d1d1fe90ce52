//! Unix paths as text: joining, and the component form by which two paths
//! are the same path (`Path`'s equality).
use vstd::prelude::*;

use crate::text::{
    chars_of, is_char, lemma_split_by_pieces_free, opt_view, join_strings, join_with, split_by, split_pieces, strs, Delimiter,
};

verus! {

/// Whether `p` starts at the root (`Path::is_absolute` on Unix).
pub open spec fn has_root(p: Seq<char>) -> bool {
    p.len() > 0 && p[0] == '/'
}

/// Whether a relative `p` begins with a `.` component: it is `.` or starts
/// with `./`.
pub open spec fn leading_cur_dir(p: Seq<char>) -> bool {
    &&& !has_root(p)
    &&& p.len() >= 1
    &&& p[0] == '.'
    &&& (p.len() == 1 || p[1] == '/')
}

/// The predicate "is a component that names something": not empty, not `.`.
pub open spec fn named_part() -> spec_fn(Seq<char>) -> bool {
    |x: Seq<char>| x.len() > 0 && x != seq!['.']
}

/// The components of `p` after the root, as `Path::components` yields them:
/// empty pieces and `.` pieces dropped, except one leading `.` of a relative
/// path.
pub open spec fn components(p: Seq<char>) -> Seq<Seq<char>> {
    let named = split_by(p, is_char('/')).filter(named_part());
    if leading_cur_dir(p) {
        seq![seq!['.']] + named
    } else {
        named
    }
}

/// The text of the path with root flag `root` and components `comps`.
pub open spec fn key_of(root: bool, comps: Seq<Seq<char>>) -> Seq<char> {
    (if root {
        seq!['/']
    } else {
        Seq::<char>::empty()
    }) + join_with(comps, seq!['/'])
}

/// The normal form of `p`: two paths are equal as `Path`s exactly when they
/// have the same root flag and components, which this text records.
pub open spec fn path_key(p: Seq<char>) -> Seq<char> {
    key_of(has_root(p), components(p))
}

/// The normal form of the directory that holds `p` (`Path::parent`), or of
/// `p` itself where it has no parent (the root, the empty path).
pub open spec fn parent_key(p: Seq<char>) -> Seq<char> {
    if components(p).len() > 0 {
        key_of(has_root(p), components(p).drop_last())
    } else {
        path_key(p)
    }
}

/// `rest` joined onto `base` (`Path::join` on Unix): an absolute `rest`
/// replaces `base`; otherwise a `/` goes between them unless `base` is empty
/// or already ends with one.
pub open spec fn join_path(base: Seq<char>, rest: Seq<char>) -> Seq<char> {
    if has_root(rest) {
        rest
    } else if base.len() == 0 || base.last() == '/' {
        base + rest
    } else {
        base + seq!['/'] + rest
    }
}

/// `p` made absolute against the working directory `cwd`, `.` standing for
/// a working directory that could not be read.
pub open spec fn absolute_of(p: Seq<char>, cwd: Option<Seq<char>>) -> Seq<char> {
    if has_root(p) {
        p
    } else {
        join_path(
            match cwd {
                Some(c) => c,
                None => seq!['.'],
            },
            p,
        )
    }
}

/// Whether `p` starts at the root.
pub fn is_absolute(p: &str) -> (b: bool)
    ensures
        b == has_root(p@),
{
    let cs = chars_of(p);
    cs.len() > 0 && cs[0] == '/'
}

/// `rest` joined onto `base` (`Path::join`).
pub fn join(base: &str, rest: &str) -> (res: String)
    ensures
        res@ == join_path(base@, rest@),
{
    if is_absolute(rest) {
        return rest.to_string();
    }
    let bs = chars_of(base);
    let mut res = base.to_string();
    if bs.len() > 0 && bs[bs.len() - 1] != '/' {
        res.append("/");
        proof {
            reveal_strlit("/");
        }
    }
    res.append(rest);
    res
}

/// `p` made absolute against `cwd` (`.` where the working directory could
/// not be read).
pub fn absolute(p: &str, cwd: &Option<String>) -> (res: String)
    ensures
        res@ == absolute_of(p@, opt_view(*cwd)),
{
    if is_absolute(p) {
        p.to_string()
    } else {
        match cwd {
            Some(c) => join(c.as_str(), p),
            None => {
                proof {
                    reveal_strlit(".");
                }
                join(".", p)
            },
        }
    }
}

/// The root flag and components of `p` (`Path::components`).
pub fn path_parts(p: &str) -> (res: (bool, Vec<String>))
    ensures
        res.0 == has_root(p@),
        strs(res.1@) == components(p@),
{
    broadcast use vstd::seq_lib::group_seq_properties;

    let cs = chars_of(p);
    let root = cs.len() > 0 && cs[0] == '/';
    let cur_dir = !root && cs.len() >= 1 && cs[0] == '.' && (cs.len() == 1 || cs[1] == '/');
    let pieces = split_pieces(p, &Delimiter::Char('/'));
    let ghost all = strs(pieces@);
    let mut comps: Vec<String> = Vec::new();
    if cur_dir {
        let mut dot = String::new();
        crate::text::push_char(&mut dot, '.');
        comps.push(dot);
    }
    let ghost head = strs(comps@);
    assert(all.take(0) =~= Seq::<Seq<char>>::empty());
    assert(all.take(0).filter(named_part()) =~= Seq::<Seq<char>>::empty()) by {
        reveal(Seq::filter);
    }
    assert(strs(comps@) =~= head + all.take(0).filter(named_part()));
    for i in 0..pieces.len()
        invariant
            all == strs(pieces@),
            strs(comps@) == head + all.take(i as int).filter(named_part()),
    {
        let ghost x = pieces@[i as int]@;
        assert(all.take(i + 1) =~= all.take(i as int).push(x));
        proof {
            all.take(i as int).lemma_filter_push(x, named_part());
        }
        let piece = pieces[i].as_str();
        let pc = chars_of(piece);
        let named = pc.len() > 0 && !(pc.len() == 1 && pc[0] == '.');
        assert(named == (x.len() > 0 && x != seq!['.'])) by {
            if pc.len() == 1 && pc[0] == '.' {
                assert(x =~= seq!['.']);
            }
            if x =~= seq!['.'] {
                assert(pc@.len() == 1);
            }
        }
        assert((named_part())(x) == named);
        let ghost before = strs(comps@);
        if named {
            comps.push(pieces[i].clone());
            assert(strs(comps@) =~= before.push(x));
            assert(head + all.take(i + 1).filter(named_part()) =~= (head + all.take(
                i as int,
            ).filter(named_part())).push(x));
        } else {
            assert(strs(comps@) =~= before);
        }
    }
    assert(all.take(pieces.len() as int) =~= all);
    proof {
        if cur_dir {
            assert(head =~= seq![seq!['.']]);
        } else {
            assert(head =~= Seq::<Seq<char>>::empty());
        }
    }
    (root, comps)
}

/// The text of the path with root flag `root` and components `comps`.
pub fn key_from_parts(root: bool, comps: &Vec<String>) -> (res: String)
    ensures
        res@ == key_of(root, strs(comps@)),
{
    proof {
        reveal_strlit("/");
    }
    let mut res = String::new();
    if root {
        res.append("/");
    }
    assert(res@ =~= key_of(root, Seq::<Seq<char>>::empty()));
    let joined = join_strings(comps, "/");
    res.append(joined.as_str());
    assert("/"@ =~= seq!['/']);
    assert(joined@ == join_with(strs(comps@), seq!['/']));
    assert(res@ =~= key_of(root, strs(comps@)));
    res
}

/// The normal form of `p`, equal for two texts exactly when they name the
/// same `Path`.
pub fn normal_form(p: &str) -> (res: String)
    ensures
        res@ == path_key(p@),
{
    let (root, comps) = path_parts(p);
    key_from_parts(root, &comps)
}

/// The normal form of the directory that holds `p` (`Path::parent`), or of
/// `p` itself where it has none.
pub fn parent_normal_form(p: &str) -> (res: String)
    ensures
        res@ == parent_key(p@),
{
    let (root, mut comps) = path_parts(p);
    if comps.len() > 0 {
        let ghost before = strs(comps@);
        comps.pop();
        assert(strs(comps@) =~= before.drop_last());
    }
    key_from_parts(root, &comps)
}

/// Whether `x` holds no `/`.
pub open spec fn slash_free(x: Seq<char>) -> bool {
    forall|i: int| 0 <= i < x.len() ==> x[i] != '/'
}

/// Appending `/` and a piece without `/` adds that piece to the split.
proof fn lemma_split_slash_push(s: Seq<char>, b: Seq<char>)
    requires
        slash_free(b),
    ensures
        split_by(s + seq!['/'] + b, is_char('/')) == split_by(s, is_char('/')).push(b),
    decreases b.len(),
{
    if b.len() == 0 {
        assert((s + seq!['/'] + b).drop_last() =~= s);
        assert((s + seq!['/'] + b).last() == '/');
        assert(b =~= Seq::<char>::empty());
    } else {
        let b2 = b.drop_last();
        lemma_split_slash_push(s, b2);
        let t = s + seq!['/'] + b;
        assert(t.drop_last() =~= s + seq!['/'] + b2);
        assert(t.last() == b.last());
        assert(b.last() != '/');
        let prev = split_by(s, is_char('/')).push(b2);
        assert(b2.push(b.last()) =~= b);
        assert(prev.update(prev.len() - 1, prev.last().push(b.last())) =~= split_by(
            s,
            is_char('/'),
        ).push(b));
    }
}

/// A piece without `/` splits into itself.
proof fn lemma_split_free(b: Seq<char>)
    requires
        slash_free(b),
    ensures
        split_by(b, is_char('/')) == seq![b],
    decreases b.len(),
{
    if b.len() == 0 {
        assert(b =~= Seq::<char>::empty());
    } else {
        lemma_split_free(b.drop_last());
        assert(b.last() != '/');
        assert(b.drop_last().push(b.last()) =~= b);
        assert(seq![b.drop_last()].update(0, b.drop_last().push(b.last())) =~= seq![b]);
    }
}

/// Pieces without `/`, joined by `/`, split back into themselves.
proof fn lemma_split_join(comps: Seq<Seq<char>>)
    requires
        comps.len() > 0,
        forall|i: int| 0 <= i < comps.len() ==> slash_free(#[trigger] comps[i]),
    ensures
        split_by(join_with(comps, seq!['/']), is_char('/')) == comps,
    decreases comps.len(),
{
    if comps.len() == 1 {
        lemma_split_free(comps[0]);
        assert(seq![comps[0]] =~= comps);
    } else {
        let d = comps.drop_last();
        assert forall|i: int| 0 <= i < d.len() implies slash_free(#[trigger] d[i]) by {
            assert(d[i] == comps[i]);
        }
        lemma_split_join(d);
        assert(slash_free(comps.last()));
        lemma_split_slash_push(join_with(d, seq!['/']), comps.last());
        assert(d.push(comps.last()) =~= comps);
    }
}

/// `/` followed by pieces without `/` joined by `/` splits into an empty
/// piece and the pieces.
proof fn lemma_split_rooted_join(comps: Seq<Seq<char>>)
    requires
        comps.len() > 0,
        forall|i: int| 0 <= i < comps.len() ==> slash_free(#[trigger] comps[i]),
    ensures
        split_by(seq!['/'] + join_with(comps, seq!['/']), is_char('/')) == seq![
            Seq::<char>::empty(),
        ] + comps,
    decreases comps.len(),
{
    if comps.len() == 1 {
        assert(slash_free(comps[0]));
        lemma_split_slash_push(Seq::<char>::empty(), comps[0]);
        assert(seq!['/'] + join_with(comps, seq!['/']) =~= Seq::<char>::empty() + seq!['/']
            + comps[0]);
        assert(seq![Seq::<char>::empty()].push(comps[0]) =~= seq![Seq::<char>::empty()] + comps);
    } else {
        let d = comps.drop_last();
        assert forall|i: int| 0 <= i < d.len() implies slash_free(#[trigger] d[i]) by {
            assert(d[i] == comps[i]);
        }
        lemma_split_rooted_join(d);
        assert(slash_free(comps.last()));
        lemma_split_slash_push(seq!['/'] + join_with(d, seq!['/']), comps.last());
        assert(seq!['/'] + join_with(comps, seq!['/']) =~= seq!['/'] + join_with(d, seq!['/'])
            + seq!['/'] + comps.last());
        assert((seq![Seq::<char>::empty()] + d).push(comps.last()) =~= seq![Seq::<char>::empty()]
            + comps);
    }
}

/// What follows the first item in `join_with`.
pub open spec fn join_tail(comps: Seq<Seq<char>>, sep: Seq<char>) -> Seq<char> {
    if comps.len() <= 1 {
        Seq::<char>::empty()
    } else {
        sep + join_with(comps.drop_first(), sep)
    }
}

/// A join starts with the first item.
proof fn lemma_join_head(comps: Seq<Seq<char>>, sep: Seq<char>)
    requires
        comps.len() > 0,
    ensures
        join_with(comps, sep) == comps[0] + join_tail(comps, sep),
    decreases comps.len(),
{
    if comps.len() == 1 {
        assert(comps[0] + Seq::<char>::empty() =~= comps[0]);
    } else {
        let d = comps.drop_last();
        lemma_join_head(d, sep);
        let e = comps.drop_first();
        if d.len() == 1 {
            assert(e =~= seq![comps.last()]);
            assert(join_with(comps, sep) =~= comps[0] + join_tail(comps, sep));
        } else {
            assert(e.drop_last() =~= d.drop_first());
            assert(e.last() == comps.last());
            assert(join_with(e, sep) == join_with(d.drop_first(), sep) + sep + comps.last());
            assert(join_with(comps, sep) =~= comps[0] + join_tail(comps, sep));
        }
    }
}

/// Whether `comps` can be the components of a path with root flag `root`:
/// none empty, none holding `/`, and `.` only as the first component of a
/// relative path.
pub open spec fn good_parts(root: bool, comps: Seq<Seq<char>>) -> bool {
    forall|i: int|
        0 <= i < comps.len() ==> {
            &&& (#[trigger] comps[i]).len() > 0
            &&& slash_free(comps[i])
            &&& (comps[i] == seq!['.'] ==> !root && i == 0)
        }
}

/// Filtering by `named_part` keeps a sequence whose items are all named.
proof fn lemma_filter_named_all(comps: Seq<Seq<char>>)
    requires
        forall|i: int| 0 <= i < comps.len() ==> (named_part())(#[trigger] comps[i]),
    ensures
        comps.filter(named_part()) == comps,
    decreases comps.len(),
{
    if comps.len() == 0 {
        assert(comps.filter(named_part()) =~= comps) by {
            reveal(Seq::filter);
        }
    } else {
        let d = comps.drop_last();
        assert forall|i: int| 0 <= i < d.len() implies (named_part())(#[trigger] d[i]) by {
            assert(d[i] == comps[i]);
        }
        lemma_filter_named_all(d);
        d.lemma_filter_push(comps.last(), named_part());
        assert(d.push(comps.last()) =~= comps);
        assert((named_part())(comps[comps.len() - 1]));
    }
}

/// The empty piece is filtered out.
proof fn lemma_filter_named_empty()
    ensures
        seq![Seq::<char>::empty()].filter(named_part()) == Seq::<Seq<char>>::empty(),
        seq![Seq::<char>::empty(), Seq::<char>::empty()].filter(named_part()) == Seq::<
            Seq<char>,
        >::empty(),
{
    reveal_with_fuel(Seq::filter, 3);
    assert(seq![Seq::<char>::empty()].drop_last() =~= Seq::<Seq<char>>::empty());
    assert(seq![Seq::<char>::empty(), Seq::<char>::empty()].drop_last() =~= seq![
        Seq::<char>::empty(),
    ]);
}

/// The text of a path with good components has exactly that root flag and
/// those components.
pub proof fn lemma_key_round_trip(root: bool, comps: Seq<Seq<char>>)
    requires
        good_parts(root, comps),
    ensures
        has_root(key_of(root, comps)) == root,
        components(key_of(root, comps)) == comps,
{
    let key = key_of(root, comps);
    let e = Seq::<char>::empty();
    lemma_filter_named_empty();
    if comps.len() == 0 {
        if root {
            assert(key =~= seq!['/']);
            assert(split_by(seq!['/'], is_char('/')) =~= seq![e, e]) by {
                assert(seq!['/'].drop_last() =~= e);
                assert(split_by(e, is_char('/')) == seq![e]);
            }
        } else {
            assert(key =~= e);
        }
        assert(components(key) =~= comps);
    } else {
        assert forall|i: int| 0 <= i < comps.len() implies slash_free(#[trigger] comps[i]) by {}
        lemma_join_head(comps, seq!['/']);
        if root {
            lemma_split_rooted_join(comps);
            assert(key =~= seq!['/'] + join_with(comps, seq!['/']));
            assert forall|i: int| 0 <= i < comps.len() implies (named_part())(#[trigger] comps[i]) by {}
            lemma_filter_named_all(comps);
            Seq::filter_distributes_over_add(seq![e], comps, named_part());
            assert(seq![e].filter(named_part()) + comps =~= comps);
        } else {
            lemma_split_join(comps);
            assert(key =~= join_with(comps, seq!['/']));
            let first = comps[0];
            assert(first.len() > 0);
            assert(key[0] == first[0]);
            if first =~= seq!['.'] {
                let rest = comps.drop_first();
                assert forall|i: int| 0 <= i < rest.len() implies (named_part())(#[trigger] rest[i]) by {
                    assert(rest[i] == comps[i + 1]);
                }
                lemma_filter_named_all(rest);
                assert(seq![first] + rest =~= comps);
                Seq::filter_distributes_over_add(seq![first], rest, named_part());
                assert(seq![first].filter(named_part()) =~= Seq::<Seq<char>>::empty()) by {
                    reveal_with_fuel(Seq::filter, 2);
                    assert(seq![first].drop_last() =~= Seq::<Seq<char>>::empty());
                }
                if comps.len() > 1 {
                    assert(key[1] == '/');
                } else {
                    assert(key =~= first);
                }
                assert(leading_cur_dir(key));
                assert(components(key) =~= seq![seq!['.']] + rest);
            } else {
                assert forall|i: int| 0 <= i < comps.len() implies (named_part())(#[trigger] comps[i]) by {}
                lemma_filter_named_all(comps);
                if first[0] == '.' {
                    assert(first.len() >= 2);
                    assert(key[1] == first[1]);
                }
                assert(!leading_cur_dir(key));
            }
        }
    }
}

/// The components of any path are good components.
pub proof fn lemma_components_good(p: Seq<char>)
    ensures
        good_parts(has_root(p), components(p)),
{
    let pieces = split_by(p, is_char('/'));
    lemma_split_by_pieces_free(p, is_char('/'));
    let named = pieces.filter(named_part());
    assert forall|k: int| 0 <= k < named.len() implies {
        &&& (#[trigger] named[k]).len() > 0
        &&& slash_free(named[k])
        &&& named[k] != seq!['.']
    } by {
        pieces.lemma_filter_pred(named_part(), k);
        assert(named.contains(named[k]));
        pieces.lemma_filter_contains_rev(named_part(), named[k]);
        let i = choose|i: int| 0 <= i < pieces.len() && pieces[i] == named[k];
        assert forall|j: int| 0 <= j < named[k].len() implies named[k][j] != '/' by {
            assert(!(is_char('/'))(pieces[i][j]));
        }
    }
    let comps = components(p);
    if leading_cur_dir(p) {
        assert forall|i: int| 0 <= i < comps.len() implies {
            &&& (#[trigger] comps[i]).len() > 0
            &&& slash_free(comps[i])
            &&& (comps[i] == seq!['.'] ==> !has_root(p) && i == 0)
        } by {
            if i > 0 {
                assert(comps[i] == named[i - 1]);
            } else {
                assert(comps[0] == seq!['.']);
            }
        }
    } else {
        assert(comps == named);
    }
}

/// The normal form of a path names the same path (same root flag, same
/// components, hence equal as a `Path`), and is its own normal form.
pub proof fn lemma_normal_form_is_same_path(p: Seq<char>)
    ensures
        has_root(path_key(p)) == has_root(p),
        components(path_key(p)) == components(p),
        path_key(path_key(p)) == path_key(p),
{
    lemma_components_good(p);
    lemma_key_round_trip(has_root(p), components(p));
}

/// The directory normal form of a path with components names its parent:
/// the same root flag and all components but the last; and it is its own
/// normal form.
pub proof fn lemma_parent_is_normal(p: Seq<char>)
    ensures
        components(p).len() > 0 ==> has_root(parent_key(p)) == has_root(p) && components(
            parent_key(p),
        ) == components(p).drop_last(),
        path_key(parent_key(p)) == parent_key(p),
{
    lemma_components_good(p);
    let comps = components(p);
    if comps.len() > 0 {
        let d = comps.drop_last();
        assert forall|i: int| 0 <= i < d.len() implies {
            &&& (#[trigger] d[i]).len() > 0
            &&& slash_free(d[i])
            &&& (d[i] == seq!['.'] ==> !has_root(p) && i == 0)
        } by {
            assert(d[i] == comps[i]);
        }
        lemma_key_round_trip(has_root(p), d);
    } else {
        lemma_normal_form_is_same_path(p);
    }
}

} // verus!

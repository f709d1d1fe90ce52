//! Character-level text handling: whitespace, splitting and joining.
use vstd::prelude::*;

verus! {

/// The Unicode `White_Space` property, the set that `char::is_whitespace`
/// tests for.
pub open spec fn is_white_space(c: char) -> bool {
    let u = c as u32;
    ||| 0x09 <= u <= 0x0d
    ||| u == 0x20
    ||| u == 0x85
    ||| u == 0xa0
    ||| u == 0x1680
    ||| 0x2000 <= u <= 0x200a
    ||| u == 0x2028
    ||| u == 0x2029
    ||| u == 0x202f
    ||| u == 0x205f
    ||| u == 0x3000
}

/// Whether `c` has the Unicode `White_Space` property.
pub fn is_white_space_char(c: char) -> (b: bool)
    ensures
        b == is_white_space(c),
{
    let u = c as u32;
    (0x09 <= u && u <= 0x0d) || u == 0x20 || u == 0x85 || u == 0xa0 || u == 0x1680 || (0x2000
        <= u && u <= 0x200a) || u == 0x2028 || u == 0x2029 || u == 0x202f || u == 0x205f || u
        == 0x3000
}

/// The characters of `s`, in order.
pub fn chars_of(s: &str) -> (v: Vec<char>)
    ensures
        v@ == s@,
{
    let mut v: Vec<char> = Vec::new();
    for c in it: s.chars()
        invariant
            v@ == it.seq().take(it.index() as int),
    {
        v.push(c);
    }
    assert(v@ =~= s@);
    v
}


/// Appends `c` to `s` (`String::push`).
#[verifier::external_body]
pub(crate) fn push_char(s: &mut String, c: char)
    ensures
        final(s)@ == old(s)@.push(c),
{
    s.push(c);
}

/// The views of a sequence of strings.
pub open spec fn strs(v: Seq<String>) -> Seq<Seq<char>> {
    v.map_values(|x: String| x@)
}

/// The view of an optional string.
pub open spec fn opt_view(o: Option<String>) -> Option<Seq<char>> {
    match o {
        Some(x) => Some(x@),
        None => None,
    }
}

/// The pieces of `s` between the characters that satisfy `p`, empty pieces
/// included, as `str::split` yields them: `s` with no such character is one
/// piece, and each such character starts a new piece.
pub open spec fn split_by(s: Seq<char>, p: spec_fn(char) -> bool) -> Seq<Seq<char>>
    decreases s.len(),
{
    if s.len() == 0 {
        seq![Seq::<char>::empty()]
    } else {
        let prev = split_by(s.drop_last(), p);
        if p(s.last()) {
            prev.push(Seq::<char>::empty())
        } else {
            prev.update(prev.len() - 1, prev.last().push(s.last()))
        }
    }
}

/// `split_by` always yields at least one piece.
pub proof fn lemma_split_by_nonempty(s: Seq<char>, p: spec_fn(char) -> bool)
    ensures
        split_by(s, p).len() >= 1,
    decreases s.len(),
{
    if s.len() > 0 {
        lemma_split_by_nonempty(s.drop_last(), p);
    }
}

/// No piece of `split_by` holds a character that satisfies `p`.
pub proof fn lemma_split_by_pieces_free(s: Seq<char>, p: spec_fn(char) -> bool)
    ensures
        forall|i: int, j: int|
            0 <= i < split_by(s, p).len() && 0 <= j < split_by(s, p)[i].len() ==> !p(
                #[trigger] split_by(s, p)[i][j],
            ),
    decreases s.len(),
{
    if s.len() > 0 {
        lemma_split_by_pieces_free(s.drop_last(), p);
        lemma_split_by_nonempty(s.drop_last(), p);
        let prev = split_by(s.drop_last(), p);
        if !p(s.last()) {
            let cur = split_by(s, p);
            assert forall|i: int, j: int| 0 <= i < cur.len() && 0 <= j < cur[i].len() implies !p(
                #[trigger] cur[i][j],
            ) by {
                if i == prev.len() - 1 && j == prev.last().len() {
                } else if i == prev.len() - 1 {
                    assert(cur[i][j] == prev[i][j]);
                } else {
                    assert(cur[i] == prev[i]);
                }
            }
        }
    }
}

/// Splitting at a character and joining the pieces with it gives the text
/// back.
pub proof fn lemma_split_join(s: Seq<char>, sep: char)
    ensures
        join_with(split_by(s, is_char(sep)), seq![sep]) == s,
    decreases s.len(),
{
    if s.len() > 0 {
        let t = s.drop_last();
        lemma_split_join(t, sep);
        lemma_split_by_nonempty(t, is_char(sep));
        let prev = split_by(t, is_char(sep));
        let cur = split_by(s, is_char(sep));
        if s.last() == sep {
            assert(cur.drop_last() =~= prev);
            assert(join_with(cur, seq![sep]) =~= t + seq![sep] + Seq::<char>::empty());
        } else if prev.len() == 1 {
            assert(join_with(cur, seq![sep]) == cur[0]);
            assert(cur[0] =~= t.push(s.last()));
        } else {
            assert(cur.drop_last() =~= prev.drop_last());
            assert(join_with(prev, seq![sep]) == join_with(prev.drop_last(), seq![sep]) + seq![sep]
                + prev.last());
            assert(join_with(cur, seq![sep]) =~= t.push(s.last()));
        }
        assert(t.push(s.last()) =~= s);
    }
}

/// The predicate "is the character `sep`".
pub open spec fn is_char(sep: char) -> spec_fn(char) -> bool {
    |c: char| c == sep
}

/// The predicate "has the Unicode `White_Space` property".
pub open spec fn white_space() -> spec_fn(char) -> bool {
    |c: char| is_white_space(c)
}

/// The predicate "is not empty", on strings.
pub open spec fn non_empty() -> spec_fn(Seq<char>) -> bool {
    |w: Seq<char>| w.len() > 0
}

/// The whitespace-separated words of `s`, as `str::split_whitespace`
/// yields them: the non-empty pieces between whitespace characters.
pub open spec fn words(s: Seq<char>) -> Seq<Seq<char>> {
    split_by(s, white_space()).filter(non_empty())
}

/// What separates the pieces of a text.
pub enum Delimiter {
    /// One given character.
    Char(char),
    /// Any whitespace character.
    WhiteSpace,
}

impl Delimiter {
    /// The characters that are this delimiter.
    pub open spec fn pred(self) -> spec_fn(char) -> bool {
        match self {
            Delimiter::Char(c) => is_char(c),
            Delimiter::WhiteSpace => white_space(),
        }
    }

    /// Whether `c` is this delimiter.
    pub fn matches(&self, c: char) -> (b: bool)
        ensures
            b == (self.pred())(c),
    {
        match self {
            Delimiter::Char(d) => c == *d,
            Delimiter::WhiteSpace => is_white_space_char(c),
        }
    }
}

/// The pieces of `s` between delimiters, empty pieces included
/// (`str::split`).
pub fn split_pieces(s: &str, d: &Delimiter) -> (pieces: Vec<String>)
    ensures
        strs(pieces@) == split_by(s@, d.pred()),
{
    broadcast use vstd::seq_lib::group_seq_properties;

    let chars = chars_of(s);
    let mut pieces: Vec<String> = Vec::new();
    let mut cur = String::new();
    assert(s@.take(0) =~= Seq::<char>::empty());
    assert(strs(pieces@).push(cur@) =~= split_by(s@.take(0), d.pred()));
    for i in 0..chars.len()
        invariant
            chars@ == s@,
            strs(pieces@).push(cur@) == split_by(s@.take(i as int), d.pred()),
    {
        let c = chars[i];
        let ghost before = strs(pieces@).push(cur@);
        assert(s@.take(i + 1).drop_last() =~= s@.take(i as int));
        assert(s@.take(i + 1).last() == c);
        if d.matches(c) {
            pieces.push(cur);
            cur = String::new();
            assert(strs(pieces@).push(cur@) =~= before.push(Seq::<char>::empty()));
        } else {
            push_char(&mut cur, c);
            assert(strs(pieces@).push(cur@) =~= before.update(
                before.len() - 1,
                before.last().push(c),
            ));
        }
    }
    assert(s@.take(chars.len() as int) =~= s@);
    pieces.push(cur);
    pieces
}

/// The whitespace-separated words of `s` (`str::split_whitespace`).
pub fn split_words(s: &str) -> (ws: Vec<String>)
    ensures
        strs(ws@) == words(s@),
{
    broadcast use vstd::seq_lib::group_seq_properties;

    let pieces = split_pieces(s, &Delimiter::WhiteSpace);
    let ghost all = strs(pieces@);
    let mut ws: Vec<String> = Vec::new();
    assert(all.take(0) =~= Seq::<Seq<char>>::empty());
    assert(all.take(0).filter(non_empty()) =~= Seq::<Seq<char>>::empty()) by {
        reveal(Seq::filter);
    }
    for i in 0..pieces.len()
        invariant
            all == strs(pieces@),
            strs(ws@) == all.take(i as int).filter(non_empty()),
    {
        assert(all.take(i + 1) =~= all.take(i as int).push(pieces@[i as int]@));
        proof {
            all.take(i as int).lemma_filter_push(pieces@[i as int]@, non_empty());
        }
        if !pieces[i].as_str().is_empty() {
            ws.push(pieces[i].clone());
        }
    }
    assert(all.take(pieces.len() as int) =~= all);
    ws
}


/// `list` joined into one text with `sep` between consecutive items.
pub open spec fn join_with(list: Seq<Seq<char>>, sep: Seq<char>) -> Seq<char>
    decreases list.len(),
{
    if list.len() == 0 {
        Seq::<char>::empty()
    } else if list.len() == 1 {
        list[0]
    } else {
        join_with(list.drop_last(), sep) + sep + list.last()
    }
}

/// Joins `list` with `sep` between consecutive items (`slice::join`).
pub fn join_strings(list: &Vec<String>, sep: &str) -> (res: String)
    ensures
        res@ == join_with(strs(list@), sep@),
{
    let mut res = String::new();
    for i in 0..list.len()
        invariant
            res@ == join_with(strs(list@).take(i as int), sep@),
    {
        let ghost prev = strs(list@).take(i as int);
        assert(strs(list@).take(i + 1).drop_last() =~= prev);
        if i != 0 {
            res.append(sep);
        }
        res.append(list[i].as_str());
        proof {
            if i == 0 {
                assert(res@ =~= join_with(strs(list@).take(1), sep@));
            }
        }
    }
    assert(strs(list@).take(list.len() as int) =~= strs(list@));
    res
}

/// A string with the characters of `v`, in order.
pub fn string_of(v: &Vec<char>) -> (s: String)
    ensures
        s@ == v@,
{
    let mut s = String::new();
    for i in 0..v.len()
        invariant
            s@ == v@.take(i as int),
    {
        assert(v@.take(i + 1) =~= v@.take(i as int).push(v@[i as int]));
        push_char(&mut s, v[i]);
    }
    assert(v@.take(v.len() as int) =~= v@);
    s
}

/// The character of a decimal digit.
pub open spec fn digit_char(d: nat) -> char {
    (48 + d) as char
}

/// The decimal digits of `n`, most significant first, without leading zeros.
pub open spec fn digits(n: nat) -> Seq<char>
    decreases n,
{
    if n < 10 {
        seq![digit_char(n)]
    } else {
        digits(n / 10) + seq![digit_char(n % 10)]
    }
}

/// `n` in decimal, with a leading `-` where negative (`i32`'s `Display`).
pub open spec fn decimal(n: int) -> Seq<char> {
    if n < 0 {
        seq!['-'] + digits((-n) as nat)
    } else {
        digits(n as nat)
    }
}

/// The number that a sequence of decimal digits denotes.
pub open spec fn digits_value(s: Seq<char>) -> int
    decreases s.len(),
{
    if s.len() == 0 {
        0
    } else {
        digits_value(s.drop_last()) * 10 + (s.last() as int - 48)
    }
}

/// Whether `s` is a decimal numeral: at least one digit, only digits, and
/// no leading zero unless it is `0` itself.
pub open spec fn is_numeral(s: Seq<char>) -> bool {
    &&& s.len() > 0
    &&& forall|i: int| 0 <= i < s.len() ==> '0' <= #[trigger] s[i] <= '9'
    &&& (s.len() > 1 ==> s[0] != '0')
}

/// The digits of `n` are a numeral that denotes `n`.
proof fn lemma_digits_read_back(n: nat)
    ensures
        is_numeral(digits(n)),
        digits_value(digits(n)) == n,
        n > 0 ==> digits(n)[0] != '0',
    decreases n,
{
    assert(digit_char(n % 10) as int == 48 + n % 10);
    if n >= 10 {
        lemma_digits_read_back(n / 10);
        let d = digits(n);
        assert(d.drop_last() =~= digits(n / 10));
        assert(d.last() == digit_char(n % 10));
        assert(d[0] == digits(n / 10)[0]);
        assert(digits_value(d) == digits_value(digits(n / 10)) * 10 + n % 10);
        assert((n / 10) * 10 + n % 10 == n) by (nonlinear_arith);
    } else {
        let d = digits(n);
        assert(d.drop_last() =~= Seq::<char>::empty());
        assert(digits_value(d.drop_last()) == 0);
        assert(d.last() == digit_char(n % 10));
    }
}

/// Decimal text reads back as the number it was written from: a numeral
/// that denotes the number's magnitude, behind a `-` exactly where the
/// number is negative.
pub proof fn lemma_decimal_reads_back(n: int)
    ensures
        n < 0 ==> decimal(n)[0] == '-' && is_numeral(decimal(n).skip(1)) && digits_value(
            decimal(n).skip(1),
        ) == -n,
        n >= 0 ==> is_numeral(decimal(n)) && digits_value(decimal(n)) == n,
{
    if n < 0 {
        lemma_digits_read_back((-n) as nat);
        assert(decimal(n).skip(1) =~= digits((-n) as nat));
    } else {
        lemma_digits_read_back(n as nat);
    }
}

/// `n` in decimal.
pub fn decimal_string(n: i32) -> (s: String)
    ensures
        s@ == decimal(n as int),
{
    let wide = n as i64;
    let neg = wide < 0;
    let mut m: u64 = if neg {
        (-wide) as u64
    } else {
        wide as u64
    };
    let ghost total: nat = m as nat;
    let mut acc: Vec<char> = Vec::new();
    while m >= 10
        invariant
            digits(total) == digits(m as nat) + acc@,
        decreases m,
    {
        let d = (m % 10) as u8;
        let c = (48u8 + d) as char;
        assert(c == digit_char((m % 10) as nat));
        let ghost before = acc@;
        acc.insert(0, c);
        assert(acc@ =~= seq![c] + before);
        assert(digits(m as nat) == digits((m / 10) as nat) + seq![c]);
        m = m / 10;
    }
    let c = (48u8 + m as u8) as char;
    let ghost before = acc@;
    acc.insert(0, c);
    assert(acc@ =~= seq![c] + before);
    assert(acc@ =~= digits(total));
    let mut s = String::new();
    if neg {
        push_char(&mut s, '-');
    }
    let body = string_of(&acc);
    s.append(body.as_str());
    assert(s@ =~= decimal(n as int));
    s
}

} // verus!

//! Text primitives over Unicode scalar values: whitespace, trimming,
//! splitting and comparison, each proved against a specification on the
//! character sequence of a string slice.

use vstd::prelude::*;
use vstd::string::*;
use vstd::std_specs::iter::IteratorSpec;

verus! {

/// Whether `c` has the Unicode `White_Space` property, the notion of
/// whitespace used by `str::trim` and `str::split_whitespace`.
pub open spec fn is_white_space(c: char) -> bool {
    let u = c as u32;
    ||| 0x09 <= u <= 0x0d
    ||| u == 0x20
    ||| u == 0x85
    ||| u == 0xa0
    ||| u == 0x1680
    ||| 0x2000 <= u <= 0x200a
    ||| u == 0x2028
    ||| u == 0x2029
    ||| u == 0x202f
    ||| u == 0x205f
    ||| u == 0x3000
}

/// `s` without its leading whitespace.
pub open spec fn trim_start(s: Seq<char>) -> Seq<char>
    decreases s.len(),
{
    if s.len() > 0 && is_white_space(s[0]) {
        trim_start(s.drop_first())
    } else {
        s
    }
}

/// `s` without its trailing whitespace.
pub open spec fn trim_end(s: Seq<char>) -> Seq<char>
    decreases s.len(),
{
    if s.len() > 0 && is_white_space(s.last()) {
        trim_end(s.drop_last())
    } else {
        s
    }
}

/// `s` without leading and trailing whitespace.
pub open spec fn trimmed(s: Seq<char>) -> Seq<char> {
    trim_end(trim_start(s))
}

/// Decides whether `c` is whitespace in the sense of [`is_white_space`].
pub fn is_whitespace_char(c: char) -> (b: bool)
    ensures
        b == is_white_space(c),
{
    let u = c as u32;
    (0x09 <= u && u <= 0x0d) || u == 0x20 || u == 0x85 || u == 0xa0 || u == 0x1680 || (0x2000
        <= u && u <= 0x200a) || u == 0x2028 || u == 0x2029 || u == 0x202f || u == 0x205f || u
        == 0x3000
}

/// The part of `s` between its leading and trailing whitespace.
pub fn trim<'a>(s: &'a str) -> (t: &'a str)
    ensures
        t@ == trimmed(s@),
{
    let cs = chars_of(s);
    let n = cs.len();
    let mut i: usize = 0;
    assert(s@.subrange(0, n as int) =~= s@);
    while i < n && is_whitespace_char(cs[i])
        invariant
            n == s@.len(),
            cs@ == s@,
            i <= n,
            trim_start(s@) == trim_start(s@.subrange(i as int, n as int)),
        decreases n - i,
    {
        assert(s@.subrange(i as int, n as int).drop_first() =~= s@.subrange(
            i + 1,
            n as int,
        ));
        i = i + 1;
    }
    assert(trim_start(s@.subrange(i as int, n as int)) == s@.subrange(i as int, n as int));
    let mut j: usize = n;
    while j > i && is_whitespace_char(cs[j - 1])
        invariant
            n == s@.len(),
            cs@ == s@,
            i <= j <= n,
            trim_end(s@.subrange(i as int, n as int)) == trim_end(
                s@.subrange(i as int, j as int),
            ),
        decreases j,
    {
        assert(s@.subrange(i as int, j as int).drop_last() =~= s@.subrange(
            i as int,
            j - 1,
        ));
        j = j - 1;
    }
    s.substring_char(i, j)
}

/// The separators by which text is cut into pieces.
#[derive(Clone, Copy, PartialEq, Eq, Debug)]
pub enum Separator {
    /// A comma, `','`.
    Comma,
    /// Any whitespace character.
    Whitespace,
}

/// Whether `c` is a separator of kind `sep`.
pub open spec fn separates(sep: Separator, c: char) -> bool {
    match sep {
        Separator::Comma => c == ',',
        Separator::Whitespace => is_white_space(c),
    }
}

/// The pieces of `s` between separators of kind `sep`, in order, empty
/// pieces included: `n` separators give `n + 1` pieces.
pub open spec fn split_by(s: Seq<char>, sep: Separator) -> Seq<Seq<char>>
    decreases s.len(),
{
    if s.len() == 0 {
        seq![Seq::<char>::empty()]
    } else {
        let init = split_by(s.drop_last(), sep);
        if separates(sep, s.last()) {
            init.push(Seq::<char>::empty())
        } else {
            init.update(init.len() - 1, init.last().push(s.last()))
        }
    }
}

/// The non-empty members of `pieces`, in order.
pub open spec fn non_empty(pieces: Seq<Seq<char>>) -> Seq<Seq<char>>
    decreases pieces.len(),
{
    if pieces.len() == 0 {
        Seq::empty()
    } else if pieces.last().len() == 0 {
        non_empty(pieces.drop_last())
    } else {
        non_empty(pieces.drop_last()).push(pieces.last())
    }
}

/// The words of `s`: its maximal runs of non-whitespace characters.
pub open spec fn words(s: Seq<char>) -> Seq<Seq<char>> {
    non_empty(split_by(s, Separator::Whitespace))
}

/// Whether `w` is one word: non-empty and free of whitespace.
pub open spec fn is_single_word(w: Seq<char>) -> bool {
    w.len() > 0 && forall|j: int| 0 <= j < w.len() ==> !is_white_space(#[trigger] w[j])
}

/// The character sequences of a sequence of string slices.
pub open spec fn strs_view(v: Seq<&str>) -> Seq<Seq<char>> {
    v.map_values(|x: &str| x@)
}

/// Whether `s` begins with `p`.
pub open spec fn has_prefix(s: Seq<char>, p: Seq<char>) -> bool {
    p.len() <= s.len() && s.take(p.len() as int) == p
}

/// Whether `s` ends with `x`.
pub open spec fn has_suffix(s: Seq<char>, x: Seq<char>) -> bool {
    x.len() <= s.len() && s.skip(s.len() - x.len()) == x
}

/// A text is cut into at least one piece.
pub proof fn lemma_split_by_nonempty(s: Seq<char>, sep: Separator)
    ensures
        split_by(s, sep).len() >= 1,
    decreases s.len(),
{
    if s.len() > 0 {
        lemma_split_by_nonempty(s.drop_last(), sep);
    }
}

/// A text without separators is cut into one piece: itself.
pub proof fn lemma_split_without_separator(a: Seq<char>, sep: Separator)
    requires
        forall|i: int| 0 <= i < a.len() ==> !separates(sep, #[trigger] a[i]),
    ensures
        split_by(a, sep) == seq![a],
    decreases a.len(),
{
    if a.len() == 0 {
        assert(a =~= Seq::<char>::empty());
    } else {
        lemma_split_without_separator(a.drop_last(), sep);
        assert(!separates(sep, a[a.len() - 1]));
        assert(a.drop_last().push(a.last()) =~= a);
        assert(seq![a.drop_last()].update(0, a.drop_last().push(a.last())) =~= seq![a]);
    }
}

/// Cutting `a`, a separator, and `b` gives the pieces of `a` followed by
/// those of `b`.
pub proof fn lemma_split_at_separator(a: Seq<char>, c: char, b: Seq<char>, sep: Separator)
    requires
        separates(sep, c),
    ensures
        split_by(a + seq![c] + b, sep) == split_by(a, sep) + split_by(b, sep),
    decreases b.len(),
{
    let s = a + seq![c] + b;
    lemma_split_by_nonempty(a, sep);
    if b.len() == 0 {
        assert(s.drop_last() =~= a);
        assert(split_by(a, sep).push(Seq::<char>::empty()) =~= split_by(a, sep) + seq![
            Seq::<char>::empty(),
        ]);
    } else {
        lemma_split_at_separator(a, c, b.drop_last(), sep);
        lemma_split_by_nonempty(b.drop_last(), sep);
        assert(s.drop_last() =~= a + seq![c] + b.drop_last());
        assert(s.last() == b.last());
        let x = split_by(a, sep);
        let y = split_by(b.drop_last(), sep);
        if separates(sep, b.last()) {
            assert((x + y).push(Seq::<char>::empty()) =~= x + y.push(Seq::<char>::empty()));
        } else {
            assert((x + y).update((x + y).len() - 1, (x + y).last().push(b.last())) =~= x
                + y.update(y.len() - 1, y.last().push(b.last())));
        }
    }
}

/// The words of a word, a whitespace character and a word are those two
/// words.
pub proof fn lemma_two_words(c: Seq<char>, w: char, o: Seq<char>)
    requires
        is_single_word(c),
        is_single_word(o),
        is_white_space(w),
    ensures
        words(c) == seq![c],
        words(c + seq![w] + o) == seq![c, o],
{
    lemma_split_without_separator(c, Separator::Whitespace);
    lemma_split_without_separator(o, Separator::Whitespace);
    lemma_split_at_separator(c, w, o, Separator::Whitespace);
    assert(seq![c] + seq![o] =~= seq![c, o]);
    let p = seq![c, o];
    assert(p.drop_last() =~= seq![c]);
    assert(seq![c].drop_last() =~= Seq::<Seq<char>>::empty());
    assert(non_empty(seq![c]) =~= seq![c]) by {
        assert(non_empty(Seq::<Seq<char>>::empty()) =~= Seq::<Seq<char>>::empty());
        assert(Seq::<Seq<char>>::empty().push(c) =~= seq![c]);
    }
    assert(non_empty(p) =~= seq![c].push(o));
    assert(seq![c].push(o) =~= seq![c, o]);
}

/// After leading whitespace is removed, the text is empty or begins with a
/// character that is not whitespace.
pub proof fn lemma_trim_start_head(s: Seq<char>)
    ensures
        trim_start(s).len() > 0 ==> !is_white_space(trim_start(s)[0]),
        trim_start(s).len() <= s.len(),
    decreases s.len(),
{
    if s.len() > 0 && is_white_space(s[0]) {
        lemma_trim_start_head(s.drop_first());
    }
}

/// After trailing whitespace is removed, the text is a prefix of the
/// original that is empty or ends in a character that is not whitespace, and
/// that keeps the first character where that is not whitespace.
pub proof fn lemma_trim_end_prefix(s: Seq<char>)
    ensures
        trim_end(s).len() <= s.len(),
        trim_end(s) == s.take(trim_end(s).len() as int),
        trim_end(s).len() > 0 ==> !is_white_space(trim_end(s).last()),
        s.len() > 0 && !is_white_space(s[0]) ==> trim_end(s).len() > 0,
    decreases s.len(),
{
    if s.len() > 0 && is_white_space(s.last()) {
        lemma_trim_end_prefix(s.drop_last());
        let t = trim_end(s.drop_last());
        assert(s.drop_last().take(t.len() as int) =~= s.take(t.len() as int));
        if s.len() > 0 && !is_white_space(s[0]) && s.len() == 1 {
            assert(s.last() == s[0]);
        }
    } else {
        assert(s.take(s.len() as int) =~= s);
    }
}

/// Trimming a trimmed text changes nothing.
pub proof fn lemma_trimmed_idempotent(s: Seq<char>)
    ensures
        trimmed(trimmed(s)) == trimmed(s),
{
    let y = trim_start(s);
    let z = trim_end(y);
    lemma_trim_start_head(s);
    lemma_trim_end_prefix(y);
    if z.len() > 0 {
        assert(z[0] == y[0]);
    }
    assert(trim_start(z) == z);
    lemma_trim_end_prefix(z);
    assert(trim_end(z) == z);
}

/// No piece cut at whitespace holds a whitespace character.
pub proof fn lemma_whitespace_pieces(s: Seq<char>)
    ensures
        forall|i: int, j: int|
            0 <= i < split_by(s, Separator::Whitespace).len() && 0 <= j < split_by(
                s,
                Separator::Whitespace,
            )[i].len() ==> !is_white_space(#[trigger] split_by(s, Separator::Whitespace)[i][j]),
    decreases s.len(),
{
    if s.len() > 0 {
        lemma_whitespace_pieces(s.drop_last());
        lemma_split_by_nonempty(s.drop_last(), Separator::Whitespace);
        let init = split_by(s.drop_last(), Separator::Whitespace);
        let p = split_by(s, Separator::Whitespace);
        assert forall|i: int, j: int| 0 <= i < p.len() && 0 <= j < p[i].len() implies !is_white_space(
            #[trigger] p[i][j],
        ) by {
            if !is_white_space(s.last()) && i == init.len() - 1 {
                assert(p[i] == init.last().push(s.last()));
                if j < init.last().len() {
                    assert(p[i][j] == init[i][j]);
                }
            } else if i < init.len() {
                assert(p[i] == init[i]);
            }
        }
    }
}

/// Every member of `non_empty(p)` is a non-empty member of `p`.
pub proof fn lemma_non_empty_members(p: Seq<Seq<char>>)
    ensures
        forall|i: int|
            0 <= i < non_empty(p).len() ==> (#[trigger] non_empty(p)[i]).len() > 0 && exists|k: int|
                0 <= k < p.len() && p[k] == non_empty(p)[i],
    decreases p.len(),
{
    if p.len() > 0 {
        lemma_non_empty_members(p.drop_last());
        let q = non_empty(p.drop_last());
        assert forall|i: int| 0 <= i < non_empty(p).len() implies (#[trigger] non_empty(
            p,
        )[i]).len() > 0 && exists|k: int| 0 <= k < p.len() && p[k] == non_empty(p)[i] by {
            if i < q.len() {
                assert(non_empty(p)[i] == q[i]);
                let k = choose|k: int| 0 <= k < p.drop_last().len() && p.drop_last()[k] == q[i];
                assert(p[k] == q[i]);
            } else {
                assert(non_empty(p)[i] == p.last());
                assert(p[p.len() - 1] == p.last());
            }
        }
    }
}

/// Every word is non-empty and holds no whitespace.
pub proof fn lemma_words_are_single(s: Seq<char>)
    ensures
        forall|i: int| 0 <= i < words(s).len() ==> is_single_word(#[trigger] words(s)[i]),
{
    lemma_whitespace_pieces(s);
    lemma_non_empty_members(split_by(s, Separator::Whitespace));
    let p = split_by(s, Separator::Whitespace);
    assert forall|i: int| 0 <= i < words(s).len() implies is_single_word(#[trigger] words(s)[i]) by {
        let k = choose|k: int| 0 <= k < p.len() && p[k] == words(s)[i];
        assert forall|j: int| 0 <= j < words(s)[i].len() implies !is_white_space(
            #[trigger] words(s)[i][j],
        ) by {
            assert(words(s)[i][j] == p[k][j]);
        }
    }
}

/// Decides whether `c` is a separator of kind `sep`.
pub fn is_separator(sep: Separator, c: char) -> (b: bool)
    ensures
        b == separates(sep, c),
{
    match sep {
        Separator::Comma => c == ',',
        Separator::Whitespace => is_whitespace_char(c),
    }
}

/// Cuts `s` at every separator of kind `sep`.
pub fn split_pieces<'a>(s: &'a str, sep: Separator) -> (pieces: Vec<&'a str>)
    ensures
        strs_view(pieces@) == split_by(s@, sep),
{
    let cs = chars_of(s);
    let n = cs.len();
    let mut pieces: Vec<&'a str> = Vec::new();
    let mut start: usize = 0;
    let mut i: usize = 0;
    assert(s@.take(0) =~= Seq::<char>::empty());
    assert(strs_view(pieces@).push(s@.subrange(0, 0)) =~= split_by(s@.take(0), sep));
    while i < n
        invariant
            n == s@.len(),
            cs@ == s@,
            start <= i <= n,
            strs_view(pieces@).push(s@.subrange(start as int, i as int)) == split_by(
                s@.take(i as int),
                sep,
            ),
        decreases n - i,
    {
        let c = cs[i];
        let ghost before = strs_view(pieces@);
        let ghost current = s@.subrange(start as int, i as int);
        assert(s@.take(i + 1).drop_last() =~= s@.take(i as int));
        assert(s@.take(i + 1).last() == c);
        if is_separator(sep, c) {
            let piece = s.substring_char(start, i);
            pieces.push(piece);
            start = i + 1;
            assert(strs_view(pieces@) =~= before.push(current));
            assert(s@.subrange(start as int, i + 1) =~= Seq::<char>::empty());
        } else {
            assert(s@.subrange(start as int, i + 1) =~= current.push(c));
            assert(before.push(current).update(before.len() as int, current.push(c))
                =~= before.push(current.push(c)));
        }
        i = i + 1;
    }
    let last = s.substring_char(start, n);
    let ghost before = strs_view(pieces@);
    pieces.push(last);
    assert(strs_view(pieces@) =~= before.push(last@));
    assert(s@.take(n as int) =~= s@);
    pieces
}

/// The words of `s`, in order.
pub fn split_whitespace<'a>(s: &'a str) -> (ws: Vec<&'a str>)
    ensures
        strs_view(ws@) == words(s@),
{
    let pieces = split_pieces(s, Separator::Whitespace);
    let ghost all = strs_view(pieces@);
    let mut ws: Vec<&'a str> = Vec::new();
    let mut k: usize = 0;
    assert(all.take(0) =~= Seq::<Seq<char>>::empty());
    while k < pieces.len()
        invariant
            all == strs_view(pieces@),
            k <= pieces.len(),
            strs_view(ws@) == non_empty(all.take(k as int)),
        decreases pieces.len() - k,
    {
        let piece = pieces[k];
        assert(all.take(k + 1).drop_last() =~= all.take(k as int));
        assert(all.take(k + 1).last() == piece@);
        if !piece.is_empty() {
            let ghost before = strs_view(ws@);
            ws.push(piece);
            assert(strs_view(ws@) =~= before.push(piece@));
        }
        k = k + 1;
    }
    assert(all.take(pieces.len() as int) =~= all);
    ws
}

/// The characters of `s`, in order.
pub fn chars_of(s: &str) -> (v: Vec<char>)
    ensures
        v@ == s@,
{
    broadcast use vstd::string::group_string_axioms;

    let mut it = s.chars();
    let mut v: Vec<char> = Vec::new();
    assert(it.remaining() == s@);
    loop
        invariant
            it.obeys_prophetic_iter_laws(),
            it.decrease() is Some,
            v@ + it.remaining() == s@,
        ensures
            v@ == s@,
        decreases it.decrease()->0,
    {
        let ghost before = it.remaining();
        match it.next() {
            Some(c) => {
                v.push(c);
                assert(v@ + it.remaining() =~= s@) by {
                    assert(before =~= seq![c] + before.drop_first());
                }
            },
            None => {
                assert(v@ =~= s@);
                break ;
            },
        }
    }
    v
}

/// Whether `a` and `b` hold the same characters.
pub fn str_eq(a: &str, b: &str) -> (r: bool)
    ensures
        r == (a@ == b@),
{
    let ac = chars_of(a);
    let bc = chars_of(b);
    let n = ac.len();
    if n != bc.len() {
        return false;
    }
    let mut i: usize = 0;
    while i < n
        invariant
            ac@ == a@,
            bc@ == b@,
            n == a@.len(),
            n == b@.len(),
            i <= n,
            forall|k: int| 0 <= k < i ==> a@[k] == b@[k],
        decreases n - i,
    {
        if ac[i] != bc[i] {
            return false;
        }
        i = i + 1;
    }
    assert(a@ =~= b@);
    true
}

/// Whether `s` ends with `suffix`.
pub fn ends_with(s: &str, suffix: &str) -> (r: bool)
    ensures
        r == has_suffix(s@, suffix@),
{
    let n = s.unicode_len();
    let m = suffix.unicode_len();
    if m > n {
        return false;
    }
    let tail = s.substring_char(n - m, n);
    assert(tail@ =~= s@.skip(n - m));
    str_eq(tail, suffix)
}

/// `s` without `prefix`, or `None` where `s` does not begin with it.
pub fn strip_prefix<'a>(s: &'a str, prefix: &str) -> (r: Option<&'a str>)
    ensures
        r is Some <==> has_prefix(s@, prefix@),
        r matches Some(rest) ==> rest@ == s@.skip(prefix@.len() as int),
{
    let n = s.unicode_len();
    let m = prefix.unicode_len();
    if m > n {
        return None;
    }
    let head = s.substring_char(0, m);
    assert(head@ =~= s@.take(m as int));
    if str_eq(head, prefix) {
        let rest = s.substring_char(m, n);
        assert(rest@ =~= s@.skip(m as int));
        Some(rest)
    } else {
        None
    }
}

/// `s` without its last character where that is `c`, or `None`.
pub fn strip_suffix_char<'a>(s: &'a str, c: char) -> (r: Option<&'a str>)
    ensures
        r is Some <==> (s@.len() > 0 && s@.last() == c),
        r matches Some(rest) ==> rest@ == s@.drop_last(),
{
    let n = s.unicode_len();
    if n == 0 {
        return None;
    }
    if s.get_char(n - 1) == c {
        let rest = s.substring_char(0, n - 1);
        assert(rest@ =~= s@.drop_last());
        Some(rest)
    } else {
        None
    }
}


/// `s` with every occurrence of the non-empty pattern `p` replaced by `w`,
/// occurrences found from the left and not overlapping.
pub open spec fn replaced(s: Seq<char>, p: Seq<char>, w: Seq<char>) -> Seq<char>
    decreases s.len(),
{
    if s.len() == 0 {
        Seq::empty()
    } else if p.len() > 0 && has_prefix(s, p) {
        w + replaced(s.skip(p.len() as int), p, w)
    } else {
        seq![s[0]] + replaced(s.drop_first(), p, w)
    }
}

/// Whether `cs` holds `ps` from position `i` on.
fn occurs_at(cs: &Vec<char>, ps: &Vec<char>, i: usize) -> (b: bool)
    requires
        i <= cs.len(),
    ensures
        b == has_prefix(cs@.skip(i as int), ps@),
{
    let m = ps.len();
    if m > cs.len() - i {
        return false;
    }
    let mut k: usize = 0;
    while k < m
        invariant
            m == ps.len(),
            i + m <= cs.len(),
            k <= m,
            forall|j: int| 0 <= j < k ==> cs@[i + j] == ps@[j],
        decreases m - k,
    {
        if cs[i + k] != ps[k] {
            assert(cs@.skip(i as int).take(m as int)[k as int] != ps@[k as int]);
            return false;
        }
        k = k + 1;
    }
    assert(cs@.skip(i as int).take(m as int) =~= ps@);
    true
}

/// `s` with every occurrence of `pattern` replaced by `with`.
pub fn replace_all(s: &str, pattern: &str, with: &str) -> (r: String)
    requires
        pattern@.len() > 0,
    ensures
        r@ == replaced(s@, pattern@, with@),
{
    let cs = chars_of(s);
    let ps = chars_of(pattern);
    let n = cs.len();
    let m = ps.len();
    let mut out = String::new();
    let mut start: usize = 0;
    let mut i: usize = 0;
    assert(s@.skip(0) =~= s@);
    while i < n
        invariant
            cs@ == s@,
            ps@ == pattern@,
            n == s@.len(),
            m == pattern@.len(),
            m > 0,
            start <= i <= n,
            out@ + s@.subrange(start as int, i as int) + replaced(s@.skip(i as int), pattern@, with@)
                == replaced(s@, pattern@, with@),
        decreases n - i,
    {
        let ghost rest = s@.skip(i as int);
        if occurs_at(&cs, &ps, i) {
            let ghost before = out@;
            let ghost pending = s@.subrange(start as int, i as int);
            out.append(s.substring_char(start, i));
            out.append(with);
            assert(rest.skip(m as int) =~= s@.skip(i + m));
            assert(replaced(rest, pattern@, with@) == with@ + replaced(
                rest.skip(m as int),
                pattern@,
                with@,
            ));
            assert(out@ =~= before + pending + with@);
            i = i + m;
            start = i;
            assert(s@.subrange(start as int, i as int) =~= Seq::<char>::empty());
            assert(out@ + s@.subrange(start as int, i as int) + replaced(
                s@.skip(i as int),
                pattern@,
                with@,
            ) =~= before + pending + replaced(rest, pattern@, with@));
        } else {
            assert(rest.drop_first() =~= s@.skip(i + 1));
            assert(s@.subrange(start as int, i + 1) =~= s@.subrange(start as int, i as int)
                + seq![rest[0]]);
            i = i + 1;
        }
    }
    out.append(s.substring_char(start, n));
    assert(s@.skip(n as int) =~= Seq::<char>::empty());
    out
}

} // verus!

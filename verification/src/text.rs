//! Character-level text handling: splitting, line breaking, whitespace
//! separation and joining, each stated over `Seq<char>`.
use vstd::prelude::*;

verus! {

/// The pieces of `s` between occurrences of `sep`, in order, as `str::split`
/// with a `char` pattern yields them: `k` separators give `k + 1` pieces.
pub open spec fn split_on(s: Seq<char>, sep: char) -> Seq<Seq<char>>
    decreases s.len(),
{
    if s.len() == 0 {
        seq![Seq::<char>::empty()]
    } else {
        let pieces = split_on(s.drop_last(), sep);
        if s.last() == sep {
            pieces.push(Seq::<char>::empty())
        } else {
            pieces.update(pieces.len() - 1, pieces.last().push(s.last()))
        }
    }
}

/// Splitting always yields at least one piece.
pub proof fn lemma_split_on_nonempty(s: Seq<char>, sep: char)
    ensures
        split_on(s, sep).len() >= 1,
    decreases s.len(),
{
    if s.len() > 0 {
        lemma_split_on_nonempty(s.drop_last(), sep);
    }
}

/// No piece of a split holds the separator.
pub proof fn lemma_split_on_pieces_lack_sep(s: Seq<char>, sep: char)
    ensures
        forall|i: int, j: int|
            0 <= i < split_on(s, sep).len() && 0 <= j < split_on(s, sep)[i].len() ==> split_on(
                s,
                sep,
            )[i][j] != sep,
    decreases s.len(),
{
    if s.len() > 0 {
        lemma_split_on_pieces_lack_sep(s.drop_last(), sep);
        lemma_split_on_nonempty(s.drop_last(), sep);
        let pieces = split_on(s.drop_last(), sep);
        let res = split_on(s, sep);
        assert forall|i: int, j: int|
            0 <= i < res.len() && 0 <= j < res[i].len() implies res[i][j] != sep by {
            if s.last() != sep && i == pieces.len() - 1 {
                if j < pieces.last().len() {
                    assert(res[i][j] == pieces[i][j]);
                }
            } else if i < pieces.len() {
                assert(res[i] == pieces[i]);
            }
        }
    }
}

/// Appending text without the separator extends the last piece.
pub proof fn lemma_split_on_append_plain(x: Seq<char>, y: Seq<char>, sep: char)
    requires
        forall|j: int| 0 <= j < y.len() ==> y[j] != sep,
    ensures
        split_on(x + y, sep) == split_on(x, sep).update(
            split_on(x, sep).len() - 1,
            split_on(x, sep).last() + y,
        ),
    decreases y.len(),
{
    lemma_split_on_nonempty(x, sep);
    if y.len() == 0 {
        assert(x + y =~= x);
        assert(split_on(x, sep).last() + y =~= split_on(x, sep).last());
        assert(split_on(x, sep).update(split_on(x, sep).len() - 1, split_on(x, sep).last())
            =~= split_on(x, sep));
    } else {
        let y0 = y.drop_last();
        lemma_split_on_append_plain(x, y0, sep);
        assert((x + y).drop_last() =~= x + y0);
        assert((x + y).last() == y.last());
        let p = split_on(x, sep);
        assert(split_on(x + y0, sep).last() == p.last() + y0);
        assert((p.last() + y0).push(y.last()) =~= p.last() + y);
        assert(split_on(x + y, sep) =~= p.update(p.len() - 1, p.last() + y));
    }
}

/// Unicode `White_Space`, the set that `char::is_whitespace` tests.
pub open spec fn spec_is_whitespace(c: char) -> bool {
    ||| ('\u{9}' <= c && c <= '\u{d}')
    ||| c == ' '
    ||| c == '\u{85}'
    ||| c == '\u{a0}'
    ||| c == '\u{1680}'
    ||| ('\u{2000}' <= c && c <= '\u{200a}')
    ||| c == '\u{2028}'
    ||| c == '\u{2029}'
    ||| c == '\u{202f}'
    ||| c == '\u{205f}'
    ||| c == '\u{3000}'
}

/// Whether `c` is white space in the sense of `char::is_whitespace`.
pub fn is_whitespace(c: char) -> (r: bool)
    ensures
        r == spec_is_whitespace(c),
{
    ('\u{9}' <= c && c <= '\u{d}') || c == ' ' || c == '\u{85}' || c == '\u{a0}' || c
        == '\u{1680}' || ('\u{2000}' <= c && c <= '\u{200a}') || c == '\u{2028}' || c
        == '\u{2029}' || c == '\u{202f}' || c == '\u{205f}' || c == '\u{3000}'
}

/// The pieces of `s` between white-space characters, empty pieces included.
pub open spec fn split_ws(s: Seq<char>) -> Seq<Seq<char>>
    decreases s.len(),
{
    if s.len() == 0 {
        seq![Seq::<char>::empty()]
    } else {
        let pieces = split_ws(s.drop_last());
        if spec_is_whitespace(s.last()) {
            pieces.push(Seq::<char>::empty())
        } else {
            pieces.update(pieces.len() - 1, pieces.last().push(s.last()))
        }
    }
}

/// Splitting at white space always yields at least one piece.
pub proof fn lemma_split_ws_nonempty(s: Seq<char>)
    ensures
        split_ws(s).len() >= 1,
    decreases s.len(),
{
    if s.len() > 0 {
        lemma_split_ws_nonempty(s.drop_last());
    }
}

/// Splitting `x`, a white-space character, then `y` gives the pieces of `x`
/// followed by those of `y`.
pub proof fn lemma_split_ws_append(x: Seq<char>, c: char, y: Seq<char>)
    requires
        spec_is_whitespace(c),
    ensures
        split_ws(x.push(c) + y) == split_ws(x) + split_ws(y),
    decreases y.len(),
{
    if y.len() == 0 {
        assert(x.push(c) + y =~= x.push(c));
        assert(x.push(c).drop_last() =~= x);
        assert(split_ws(x).push(Seq::<char>::empty()) =~= split_ws(x) + split_ws(y));
    } else {
        let y0 = y.drop_last();
        lemma_split_ws_append(x, c, y0);
        lemma_split_ws_nonempty(y0);
        assert((x.push(c) + y).drop_last() =~= x.push(c) + y0);
        assert((x.push(c) + y).last() == y.last());
        let a = split_ws(x);
        let b = split_ws(y0);
        if spec_is_whitespace(y.last()) {
            assert((a + b).push(Seq::<char>::empty()) =~= a + b.push(Seq::<char>::empty()));
        } else {
            let ab = a + b;
            assert(ab.last() == b.last());
            assert(ab.update(ab.len() - 1, ab.last().push(y.last())) =~= a + b.update(
                b.len() - 1,
                b.last().push(y.last()),
            ));
        }
    }
}

/// Whether a piece of text is not empty.
pub open spec fn nonempty(w: Seq<char>) -> bool {
    w.len() > 0
}

/// The words of `s`, as `str::split_whitespace` yields them: the maximal runs
/// of characters that are not white space.
pub open spec fn words(s: Seq<char>) -> Seq<Seq<char>> {
    split_ws(s).filter(|w: Seq<char>| nonempty(w))
}

/// The words of `x`, a white-space character, then `y` are the words of `x`
/// followed by those of `y`.
pub proof fn lemma_words_append(x: Seq<char>, c: char, y: Seq<char>)
    requires
        spec_is_whitespace(c),
    ensures
        words(x.push(c) + y) == words(x) + words(y),
{
    lemma_split_ws_append(x, c, y);
    Seq::filter_distributes_over_add(split_ws(x), split_ws(y), |w: Seq<char>| nonempty(w));
}

/// Removes one `'\r'` at the end of `l`, if there is one.
pub open spec fn strip_cr(l: Seq<char>) -> Seq<char> {
    if l.len() > 0 && l.last() == '\r' {
        l.drop_last()
    } else {
        l
    }
}

/// The lines of `s`, as `str::lines` yields them: `s` is split at every
/// `'\n'`; a piece that a `'\n'` ended loses one `'\r'` before it, and the
/// piece after the last `'\n'` is a line only when it is not empty.
pub open spec fn lines(s: Seq<char>) -> Seq<Seq<char>> {
    let pieces = split_on(s, '\n');
    let ended = pieces.drop_last().map_values(|l: Seq<char>| strip_cr(l));
    if pieces.last().len() == 0 {
        ended
    } else {
        ended.push(pieces.last())
    }
}

/// The texts of `ls` with `sep` between each two of them, as `join` on a
/// slice of strings gives it.
pub open spec fn join_with(ls: Seq<Seq<char>>, sep: Seq<char>) -> Seq<char>
    decreases ls.len(),
{
    if ls.len() == 0 {
        Seq::<char>::empty()
    } else if ls.len() == 1 {
        ls[0]
    } else {
        join_with(ls.drop_last(), sep) + sep + ls.last()
    }
}

/// The line terminator `"\r\n"`.
pub open spec fn crlf() -> Seq<char> {
    seq!['\r', '\n']
}

/// Whether `s` begins with `p`.
pub open spec fn starts_with(s: Seq<char>, p: Seq<char>) -> bool {
    p.len() <= s.len() && s.take(p.len() as int) == p
}

/// No line holds a `'\n'`.
pub proof fn lemma_lines_lack_newline(s: Seq<char>)
    ensures
        forall|i: int, j: int|
            0 <= i < lines(s).len() && 0 <= j < lines(s)[i].len() ==> lines(s)[i][j] != '\n',
{
    lemma_split_on_pieces_lack_sep(s, '\n');
    lemma_split_on_nonempty(s, '\n');
    let pieces = split_on(s, '\n');
    let ls = lines(s);
    assert forall|i: int, j: int| 0 <= i < ls.len() && 0 <= j < ls[i].len() implies ls[i][j]
        != '\n' by {
        if i < pieces.len() - 1 {
            assert(ls[i] == strip_cr(pieces[i]));
            assert(ls[i][j] == pieces[i][j]);
        } else {
            assert(ls[i] == pieces.last());
        }
    }
}

/// The text of lines each followed by `"\r\n"` splits at `'\n'` into those
/// lines, each followed by `'\r'`, and an empty last piece.
proof fn lemma_split_terminated(ls: Seq<Seq<char>>, k: int)
    requires
        1 <= k <= ls.len(),
        forall|i: int, j: int| 0 <= i < ls.len() && 0 <= j < ls[i].len() ==> ls[i][j] != '\n',
    ensures
        split_on(join_with(ls.take(k), crlf()) + crlf(), '\n') == ls.take(k).map_values(
            |l: Seq<char>| l.push('\r'),
        ).push(Seq::<char>::empty()),
    decreases k,
{
    let w = ls[k - 1].push('\r');
    assert forall|j: int| 0 <= j < w.len() implies w[j] != '\n' by {
        if j < ls[k - 1].len() {
            assert(w[j] == ls[k - 1][j]);
        }
    }
    let m = ls.take(k).map_values(|l: Seq<char>| l.push('\r'));
    if k == 1 {
        assert(ls.take(1).len() == 1);
        assert(join_with(ls.take(1), crlf()) == ls[0]);
        let e = Seq::<char>::empty();
        lemma_split_on_append_plain(e, w, '\n');
        assert(e + w =~= w);
        assert(split_on(e, '\n') == seq![e]);
        assert(split_on(w, '\n') =~= seq![w]);
        assert(ls[0] + crlf() =~= w.push('\n'));
        assert(w.push('\n').drop_last() =~= w);
        assert(split_on(w.push('\n'), '\n') =~= seq![w].push(e));
        assert(m =~= seq![w]);
    } else {
        lemma_split_terminated(ls, k - 1);
        let prev = join_with(ls.take(k - 1), crlf()) + crlf();
        assert(ls.take(k).drop_last() =~= ls.take(k - 1));
        assert(ls.take(k).last() == ls[k - 1]);
        assert(join_with(ls.take(k), crlf()) == join_with(ls.take(k - 1), crlf()) + crlf() + ls[k
            - 1]);
        let p = split_on(prev, '\n');
        lemma_split_on_append_plain(prev, w, '\n');
        let x = join_with(ls.take(k), crlf()) + crlf();
        assert(x =~= (prev + w).push('\n'));
        assert(x.drop_last() =~= prev + w);
        let mprev = ls.take(k - 1).map_values(|l: Seq<char>| l.push('\r'));
        assert(p == mprev.push(Seq::<char>::empty()));
        assert(p.last() + w =~= w);
        assert(p.update(p.len() - 1, p.last() + w) =~= mprev.push(w));
        assert(m =~= mprev.push(w));
    }
}

/// Lines without `'\n'`, each followed by `"\r\n"`, read back as the same
/// lines.
pub proof fn lemma_lines_of_terminated(ls: Seq<Seq<char>>)
    requires
        ls.len() >= 1,
        forall|i: int, j: int| 0 <= i < ls.len() && 0 <= j < ls[i].len() ==> ls[i][j] != '\n',
    ensures
        lines(join_with(ls, crlf()) + crlf()) == ls,
{
    lemma_split_terminated(ls, ls.len() as int);
    assert(ls.take(ls.len() as int) =~= ls);
    let pieces = split_on(join_with(ls, crlf()) + crlf(), '\n');
    let m = ls.map_values(|l: Seq<char>| l.push('\r'));
    assert(pieces.drop_last() =~= m);
    assert(m.map_values(|l: Seq<char>| strip_cr(l)) =~= ls) by {
        assert forall|i: int| 0 <= i < ls.len() implies strip_cr(m[i]) == ls[i] by {
            assert(m[i].drop_last() =~= ls[i]);
        }
    }
}

/// `"\r\n"` reads as one empty line.
pub proof fn lemma_lines_of_crlf()
    ensures
        lines(crlf()) == seq![Seq::<char>::empty()],
{
    let e = Seq::<char>::empty();
    let r = seq!['\r'];
    assert(crlf().drop_last() =~= r);
    assert(r.drop_last() =~= e);
    assert(split_on(e, '\n') == seq![e]);
    assert(e.push('\r') =~= r);
    assert(split_on(r, '\n') =~= seq![r]);
    assert(split_on(crlf(), '\n') =~= seq![r, e]);
    assert(strip_cr(r) =~= e);
    assert(lines(crlf()) =~= seq![e]);
}

/// The characters of a string, in order.
pub fn chars_of(s: &str) -> (v: Vec<char>)
    ensures
        v@ == s@,
{
    let mut v: Vec<char> = Vec::new();
    for c in it: s.chars()
        invariant
            v@ == it.seq().take(it.index() as int),
    {
        v.push(c);
    }
    v
}

/// The texts held by a vector of character vectors.
pub open spec fn texts(v: Seq<Vec<char>>) -> Seq<Seq<char>> {
    v.map_values(|p: Vec<char>| p@)
}

/// Appends `c` to `s`.
///
/// Trusted: calls `String::push`, of which the standard library documents
/// that it appends the given `char` to the end of the string; the contract
/// claims exactly that.
#[verifier::external_body]
fn push_char(s: &mut String, c: char)
    ensures
        final(s)@ == old(s)@.push(c),
{
    s.push(c);
}

/// A string holding the characters `v`.
pub fn string_of(v: &[char]) -> (s: String)
    ensures
        s@ == v@,
{
    let mut s = String::new();
    let mut i: usize = 0;
    while i < v.len()
        invariant
            i <= v.len(),
            s@ == v@.take(i as int),
        decreases v.len() - i,
    {
        push_char(&mut s, v[i]);
        i = i + 1;
        assert(s@ =~= v@.take(i as int));
    }
    assert(v@.take(v.len() as int) =~= v@);
    s
}

/// Whether `a` and `b` hold the same characters.
pub fn chars_equal(a: &[char], b: &[char]) -> (r: bool)
    ensures
        r == (a@ == b@),
{
    if a.len() != b.len() {
        return false;
    }
    let mut i: usize = 0;
    while i < a.len()
        invariant
            a@.len() == b@.len(),
            i <= a.len(),
            forall|j: int| 0 <= j < i ==> a@[j] == b@[j],
        decreases a.len() - i,
    {
        if a[i] != b[i] {
            return false;
        }
        i = i + 1;
    }
    assert(a@ =~= b@);
    true
}

/// Whether `s` begins with `p`.
pub fn starts_with_chars(s: &[char], p: &[char]) -> (r: bool)
    ensures
        r == starts_with(s@, p@),
{
    if p.len() > s.len() {
        return false;
    }
    let r = chars_equal(&s[0..p.len()], p);
    assert(s@.subrange(0, p@.len() as int) =~= s@.take(p@.len() as int));
    r
}

/// Splits `s` at every occurrence of `sep`.
pub fn split_chars(s: &[char], sep: char) -> (pieces: Vec<Vec<char>>)
    ensures
        texts(pieces@) == split_on(s@, sep),
{
    let mut done: Vec<Vec<char>> = Vec::new();
    let mut cur: Vec<char> = Vec::new();
    let mut i: usize = 0;
    assert(s@.take(0) =~= Seq::<char>::empty());
    while i < s.len()
        invariant
            i <= s.len(),
            texts(done@).push(cur@) == split_on(s@.take(i as int), sep),
        decreases s.len() - i,
    {
        let c = s[i];
        let ghost before = s@.take(i as int);
        assert(s@.take(i + 1).drop_last() =~= before);
        if c == sep {
            let ghost old_done = texts(done@);
            let ghost old_cur = cur@;
            done.push(cur);
            cur = Vec::new();
            assert(texts(done@) =~= old_done.push(old_cur));
        } else {
            let ghost pieces = split_on(before, sep);
            cur.push(c);
            assert(texts(done@).push(cur@) =~= pieces.update(pieces.len() - 1, pieces.last().push(c)));
        }
        i = i + 1;
    }
    assert(s@.take(s.len() as int) =~= s@);
    let ghost old_done = texts(done@);
    let ghost old_cur = cur@;
    done.push(cur);
    assert(texts(done@) =~= old_done.push(old_cur));
    done
}

/// Splits `s` at every white-space character.
pub fn split_ws_chars(s: &[char]) -> (pieces: Vec<Vec<char>>)
    ensures
        texts(pieces@) == split_ws(s@),
{
    let mut done: Vec<Vec<char>> = Vec::new();
    let mut cur: Vec<char> = Vec::new();
    let mut i: usize = 0;
    assert(s@.take(0) =~= Seq::<char>::empty());
    while i < s.len()
        invariant
            i <= s.len(),
            texts(done@).push(cur@) == split_ws(s@.take(i as int)),
        decreases s.len() - i,
    {
        let c = s[i];
        let ghost before = s@.take(i as int);
        assert(s@.take(i + 1).drop_last() =~= before);
        if is_whitespace(c) {
            let ghost old_done = texts(done@);
            let ghost old_cur = cur@;
            done.push(cur);
            cur = Vec::new();
            assert(texts(done@) =~= old_done.push(old_cur));
        } else {
            let ghost pieces = split_ws(before);
            cur.push(c);
            assert(texts(done@).push(cur@) =~= pieces.update(pieces.len() - 1, pieces.last().push(c)));
        }
        i = i + 1;
    }
    assert(s@.take(s.len() as int) =~= s@);
    let ghost old_done = texts(done@);
    let ghost old_cur = cur@;
    done.push(cur);
    assert(texts(done@) =~= old_done.push(old_cur));
    done
}

/// The words of `s`, as `str::split_whitespace` yields them.
pub fn words_of(s: &[char]) -> (ws: Vec<Vec<char>>)
    ensures
        texts(ws@) == words(s@),
{
    let pieces = split_ws_chars(s);
    let ghost all = texts(pieces@);
    let mut ws: Vec<Vec<char>> = Vec::new();
    let mut i: usize = 0;
    let n = pieces.len();
    assert(all.take(0) =~= Seq::<Seq<char>>::empty());
    proof {
        reveal(Seq::filter);
    }
    while i < n
        invariant
            n == pieces@.len(),
            all == texts(pieces@),
            i <= n,
            texts(ws@) == all.take(i as int).filter(|w: Seq<char>| nonempty(w)),
        decreases n - i,
    {
        proof {
            reveal(Seq::filter);
        }
        assert(all.take(i + 1).drop_last() =~= all.take(i as int));
        let ghost old_ws = texts(ws@);
        if pieces[i].len() > 0 {
            let w = pieces[i].clone();
            ws.push(w);
            assert(texts(ws@) =~= old_ws.push(all[i as int]));
        }
        i = i + 1;
    }
    assert(all.take(n as int) =~= all);
    ws
}

/// Removes one `'\r'` at the end of `l`, if there is one.
fn strip_cr_vec(l: &mut Vec<char>)
    ensures
        final(l)@ == strip_cr(old(l)@),
{
    let n = l.len();
    if n > 0 && l[n - 1] == '\r' {
        l.pop();
    }
}

/// The lines of `s`, as `str::lines` yields them.
pub fn lines_of(s: &[char]) -> (ls: Vec<Vec<char>>)
    ensures
        texts(ls@) == lines(s@),
{
    let mut pieces = split_chars(s, '\n');
    let ghost all = texts(pieces@);
    proof {
        lemma_split_on_nonempty(s@, '\n');
    }
    let n = pieces.len();
    let mut last = pieces.pop().unwrap();
    let mut ls: Vec<Vec<char>> = Vec::new();
    let mut i: usize = 0;
    while i < n - 1
        invariant
            n == all.len(),
            n >= 1,
            pieces@.len() == n - 1,
            forall|j: int| 0 <= j < n - 1 ==> #[trigger] pieces@[j]@ == all[j],
            last@ == all.last(),
            i <= n - 1,
            texts(ls@) == all.take(i as int).map_values(|l: Seq<char>| strip_cr(l)),
        decreases n - 1 - i,
    {
        let mut l = pieces[i].clone();
        assert(l@ == all[i as int]);
        strip_cr_vec(&mut l);
        assert(l@ == strip_cr(all[i as int]));
        let ghost old_ls = texts(ls@);
        ls.push(l);
        assert(texts(ls@) =~= old_ls.push(strip_cr(all[i as int])));
        assert(all.take(i + 1).map_values(|l: Seq<char>| strip_cr(l)) =~= all.take(i as int).map_values(|l: Seq<char>| strip_cr(l)).push(strip_cr(all[i as int])));
        i = i + 1;
    }
    assert(all.take(n - 1) =~= all.drop_last());
    if last.len() > 0 {
        let ghost old_ls = texts(ls@);
        ls.push(last);
        assert(texts(ls@) =~= old_ls.push(all.last()));
    }
    ls
}

/// The texts of `ls`, each followed by `"\r\n"`: their join with `"\r\n"`
/// and one more `"\r\n"` at the end.
pub fn join_crlf_terminated(ls: &Vec<Vec<char>>) -> (out: Vec<char>)
    ensures
        out@ == join_with(texts(ls@), crlf()) + crlf(),
{
    let mut out: Vec<char> = Vec::new();
    let mut i: usize = 0;
    let ghost all = texts(ls@);
    while i < ls.len()
        invariant
            all == texts(ls@),
            i <= ls.len(),
            out@ == join_with(all.take(i as int), crlf()),
        decreases ls.len() - i,
    {
        let ghost prev = out@;
        if i > 0 {
            out.push('\r');
            out.push('\n');
        }
        let line = &ls[i];
        let mut j: usize = 0;
        let ghost mid = out@;
        while j < line.len()
            invariant
                j <= line.len(),
                out@ == mid + line@.take(j as int),
            decreases line.len() - j,
        {
            out.push(line[j]);
            j = j + 1;
            assert(out@ =~= mid + line@.take(j as int));
        }
        assert(line@.take(line.len() as int) =~= line@);
        assert(all.take(i + 1).drop_last() =~= all.take(i as int));
        if i > 0 {
            assert(out@ =~= join_with(all.take(i as int), crlf()) + crlf() + all[i as int]);
        } else {
            assert(out@ =~= all[0]);
        }
        i = i + 1;
    }
    assert(all.take(ls.len() as int) =~= all);
    out.push('\r');
    out.push('\n');
    out
}

} // verus!

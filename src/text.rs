use vstd::prelude::*;
use vstd::string::*;

verus! {

/// The character views of a sequence of strings.
pub open spec fn views(v: Seq<String>) -> Seq<Seq<char>> {
    v.map_values(|x: String| x@)
}

/// `s` cut at every occurrence of `c`; the pieces exclude the separators.
/// Like `str::split` with a single-character pattern, it always yields at least one piece.
pub open spec fn split_on(s: Seq<char>, c: char) -> Seq<Seq<char>>
    decreases s.len(),
{
    if s.len() == 0 {
        seq![Seq::empty()]
    } else {
        let p = split_on(s.drop_last(), c);
        if s.last() == c {
            p.push(Seq::empty())
        } else {
            p.update(p.len() - 1, p.last().push(s.last()))
        }
    }
}

/// Whether `s` holds a carriage return and a line feed at `i` and `i + 1`.
pub open spec fn crlf_at(s: Seq<char>, i: int) -> bool {
    0 <= i && i + 1 < s.len() && s[i] == '\r' && s[i + 1] == '\n'
}

/// `s` cut at every `"\r\n"`; the pieces exclude the separators.
pub open spec fn split_lines(s: Seq<char>) -> Seq<Seq<char>>
    decreases s.len(),
{
    if s.len() == 0 {
        seq![Seq::empty()]
    } else if crlf_at(s, s.len() - 2) {
        split_lines(s.subrange(0, s.len() - 2)).push(Seq::empty())
    } else {
        let p = split_lines(s.drop_last());
        p.update(p.len() - 1, p.last().push(s.last()))
    }
}

/// Splitting always yields at least one line.
pub proof fn lemma_split_lines_nonempty(s: Seq<char>)
    ensures
        split_lines(s).len() >= 1,
    decreases s.len(),
{
    if s.len() > 0 {
        if crlf_at(s, s.len() - 2) {
            lemma_split_lines_nonempty(s.subrange(0, s.len() - 2));
        } else {
            lemma_split_lines_nonempty(s.drop_last());
        }
    }
}

/// Whether `s` holds neither a carriage return nor a line feed.
pub open spec fn single_line(s: Seq<char>) -> bool {
    forall|i: int| 0 <= i < s.len() ==> s[i] != '\r' && s[i] != '\n'
}

/// Text without line breaks is one line.
pub proof fn lemma_split_single_line(s: Seq<char>)
    requires
        single_line(s),
    ensures
        split_lines(s) == seq![s],
    decreases s.len(),
{
    if s.len() > 0 {
        let d = s.drop_last();
        assert(single_line(d));
        lemma_split_single_line(d);
        assert(!crlf_at(s, s.len() - 2));
        assert(d.push(s.last()) =~= s);
        assert(split_lines(s) =~= seq![s]);
    } else {
        assert(s =~= Seq::<char>::empty());
    }
}

/// Text joined by a line break splits into the lines of each side.
pub proof fn lemma_split_lines_join(a: Seq<char>, b: Seq<char>)
    ensures
        split_lines(a + "\r\n"@ + b) == split_lines(a) + split_lines(b),
    decreases b.len(),
{
    reveal_strlit("\r\n");
    let w = a + "\r\n"@ + b;
    let n = w.len();
    if b.len() == 0 {
        assert(w =~= a + "\r\n"@);
        assert(crlf_at(w, n - 2));
        assert(w.subrange(0, n - 2) =~= a);
        assert(split_lines(w) =~= split_lines(a) + split_lines(b));
    } else if b.len() >= 2 && crlf_at(b, b.len() - 2) {
        let b2 = b.subrange(0, b.len() - 2);
        assert(crlf_at(w, n - 2));
        assert(w.subrange(0, n - 2) =~= a + "\r\n"@ + b2);
        lemma_split_lines_join(a, b2);
        assert(split_lines(w) =~= split_lines(a) + split_lines(b));
    } else {
        let b1 = b.drop_last();
        assert(!crlf_at(w, n - 2)) by {
            if b.len() >= 2 {
                assert(w[n - 2] == b[b.len() - 2] && w[n - 1] == b[b.len() - 1]);
            } else {
                assert(w[n - 2] == '\n');
            }
        }
        assert(w.drop_last() =~= a + "\r\n"@ + b1);
        lemma_split_lines_join(a, b1);
        lemma_split_lines_nonempty(b1);
        lemma_split_lines_nonempty(a);
        assert(!crlf_at(b, b.len() - 2));
        assert(w.last() == b.last());
        assert(split_lines(w) =~= split_lines(a) + split_lines(b));
    }
}

/// Every character of a decimal representation is a digit.
pub proof fn lemma_decimal_single_line(n: nat)
    ensures
        single_line(decimal(n)),
    decreases n,
{
    if n >= 10 {
        lemma_decimal_single_line(n / 10);
    }
    assert(n % 10 < 10);
}

/// The decimal digit for `d < 10`.
pub open spec fn digit(d: nat) -> char {
    (('0' as u8) + (d as u8)) as char
}

/// The decimal representation of `n`, without leading zeros.
pub open spec fn decimal(n: nat) -> Seq<char>
    decreases n,
{
    if n < 10 {
        seq![digit(n)]
    } else {
        decimal(n / 10).push(digit(n % 10))
    }
}

/// Splits `s` at every occurrence of `c`.
pub fn split_chars(s: &str, c: char) -> (r: Vec<String>)
    ensures
        views(r@) == split_on(s@, c),
{
    let n = s.unicode_len();
    let mut parts: Vec<String> = Vec::new();
    let mut start: usize = 0;
    let mut i: usize = 0;
    assert(s@.subrange(0, 0) =~= Seq::<char>::empty());
    assert(views(parts@).push(s@.subrange(0, 0)) =~= seq![Seq::<char>::empty()]);
    while i < n
        invariant
            n == s@.len(),
            start <= i <= n,
            views(parts@).push(s@.subrange(start as int, i as int)) == split_on(
                s@.subrange(0, i as int),
                c,
            ),
        decreases n - i,
    {
        let ch = s.get_char(i);
        let ghost pre = s@.subrange(0, i as int + 1);
        assert(pre.drop_last() =~= s@.subrange(0, i as int));
        if ch == c {
            let piece = s.substring_char(start, i).to_owned();
            let ghost prev = parts@;
            parts.push(piece);
            start = i + 1;
            assert(views(parts@) =~= views(prev).push(piece@)) by {
                assert(views(parts@).last() == piece@);
            }
            assert(s@.subrange(start as int, i as int + 1) =~= Seq::<char>::empty());
        } else {
            assert(s@.subrange(start as int, i as int + 1) =~= s@.subrange(
                start as int,
                i as int,
            ).push(ch));
        }
        i = i + 1;
    }
    let last = s.substring_char(start, n).to_owned();
    let ghost prev = parts@;
    parts.push(last);
    assert(views(parts@) =~= views(prev).push(last@));
    assert(s@.subrange(0, n as int) =~= s@);
    assert(views(parts@) =~= split_on(s@, c));
    parts
}

/// Splits `s` at every `"\r\n"`.
pub fn split_crlf(s: &str) -> (r: Vec<String>)
    ensures
        views(r@) == split_lines(s@),
{
    let n = s.unicode_len();
    let mut parts: Vec<String> = Vec::new();
    let mut start: usize = 0;
    let mut i: usize = 0;
    assert(s@.subrange(0, 0) =~= Seq::<char>::empty());
    assert(views(parts@).push(s@.subrange(0, 0)) =~= seq![Seq::<char>::empty()]);
    while i < n
        invariant
            n == s@.len(),
            start <= i <= n,
            0 < i < n ==> !crlf_at(s@, i - 1),
            views(parts@).push(s@.subrange(start as int, i as int)) == split_lines(
                s@.subrange(0, i as int),
            ),
        decreases n - i,
    {
        let ch = s.get_char(i);
        if ch == '\r' && i + 1 < n && s.get_char(i + 1) == '\n' {
            let ghost pre = s@.subrange(0, i as int + 2);
            assert(pre.subrange(0, pre.len() - 2) =~= s@.subrange(0, i as int));
            assert(crlf_at(pre, pre.len() - 2));
            let piece = s.substring_char(start, i).to_owned();
            let ghost prev = parts@;
            parts.push(piece);
            assert(views(parts@) =~= views(prev).push(piece@)) by {
                assert(views(parts@).last() == piece@);
            }
            start = i + 2;
            i = i + 2;
            assert(s@.subrange(start as int, i as int) =~= Seq::<char>::empty());
        } else {
            let ghost pre = s@.subrange(0, i as int + 1);
            assert(pre.drop_last() =~= s@.subrange(0, i as int));
            assert(!crlf_at(pre, pre.len() - 2));
            assert(s@.subrange(start as int, i as int + 1) =~= s@.subrange(
                start as int,
                i as int,
            ).push(ch));
            i = i + 1;
        }
    }
    let last = s.substring_char(start, n).to_owned();
    let ghost prev = parts@;
    parts.push(last);
    assert(views(parts@) =~= views(prev).push(last@));
    assert(s@.subrange(0, n as int) =~= s@);
    assert(views(parts@) =~= split_lines(s@));
    parts
}

/// Whether two strings hold the same characters.
pub fn str_eq(a: &str, b: &str) -> (r: bool)
    ensures
        r == (a@ == b@),
{
    let n = a.unicode_len();
    if n != b.unicode_len() {
        return false;
    }
    let mut i: usize = 0;
    while i < n
        invariant
            n == a@.len() == b@.len(),
            i <= n,
            forall|j: int| 0 <= j < i ==> a@[j] == b@[j],
        decreases n - i,
    {
        if a.get_char(i) != b.get_char(i) {
            return false;
        }
        i = i + 1;
    }
    assert(a@ =~= b@);
    true
}

/// The decimal representation of `n`.
pub fn decimal_string(n: usize) -> (r: String)
    ensures
        r@ == decimal(n as nat),
    decreases n,
{
    let digits = "0123456789";
    proof {
        reveal_strlit("0123456789");
    }
    let d = n % 10;
    let tail = digits.substring_char(d, d + 1);
    assert(tail@ =~= seq![digit(d as nat)]);
    if n < 10 {
        tail.to_owned()
    } else {
        let mut head = decimal_string(n / 10);
        head.append(tail);
        assert(head@ =~= decimal(n as nat));
        head
    }
}

} // verus!

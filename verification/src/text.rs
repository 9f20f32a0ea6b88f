//! Operations on text, stated over the sequence of characters that it holds.

use vstd::prelude::*;

verus! {

/// `String::push`: appends one character to the end of the string.
pub assume_specification[ String::push ](s: &mut String, c: char)
    ensures
        final(s)@ == old(s)@.push(c),
;

/// The views of the items of a sequence, in order.
pub open spec fn views<T: View>(s: Seq<T>) -> Seq<T::V> {
    Seq::new(s.len(), |i: int| s[i]@)
}

/// The view of what an option holds.
pub open spec fn opt_view<T: View>(o: Option<T>) -> Option<T::V> {
    match o {
        Some(t) => Some(t@),
        None => None,
    }
}

/// The view of either side of a result.
pub open spec fn result_view<T: View, E: View>(r: Result<T, E>) -> Result<T::V, E::V> {
    match r {
        Ok(t) => Ok(t@),
        Err(e) => Err(e@),
    }
}

/// The characters with the Unicode property `White_Space`.
pub open spec fn white_space(c: char) -> bool {
    let n = c as u32;
    ||| 0x9 <= n <= 0xd
    ||| n == 0x20
    ||| n == 0x85
    ||| n == 0xa0
    ||| n == 0x1680
    ||| 0x2000 <= n <= 0x200a
    ||| n == 0x2028
    ||| n == 0x2029
    ||| n == 0x202f
    ||| n == 0x205f
    ||| n == 0x3000
}

/// `s` without the white space at its start.
pub open spec fn trimmed_start(s: Seq<char>) -> Seq<char>
    decreases s.len(),
{
    if s.len() > 0 && white_space(s[0]) {
        trimmed_start(s.drop_first())
    } else {
        s
    }
}

/// `s` without the white space at its end.
pub open spec fn trimmed_end(s: Seq<char>) -> Seq<char>
    decreases s.len(),
{
    if s.len() > 0 && white_space(s.last()) {
        trimmed_end(s.drop_last())
    } else {
        s
    }
}

/// `s` without the white space at either end.
pub open spec fn trimmed(s: Seq<char>) -> Seq<char> {
    trimmed_end(trimmed_start(s))
}

/// `s` without any number of `c` at its start.
pub open spec fn without_leading(s: Seq<char>, c: char) -> Seq<char>
    decreases s.len(),
{
    if s.len() > 0 && s[0] == c {
        without_leading(s.drop_first(), c)
    } else {
        s
    }
}

/// `s` without any number of `c` at its end.
pub open spec fn without_trailing(s: Seq<char>, c: char) -> Seq<char>
    decreases s.len(),
{
    if s.len() > 0 && s.last() == c {
        without_trailing(s.drop_last(), c)
    } else {
        s
    }
}

/// `s` without its occurrences of `c`.
pub open spec fn without_char(s: Seq<char>, c: char) -> Seq<char>
    decreases s.len(),
{
    if s.len() == 0 {
        s
    } else if s.last() == c {
        without_char(s.drop_last(), c)
    } else {
        without_char(s.drop_last(), c).push(s.last())
    }
}

/// The runs of characters that the separator `sep` leaves in `s`: one more
/// than `s` holds separators.
pub open spec fn pieces(s: Seq<char>, sep: char) -> Seq<Seq<char>>
    decreases s.len(),
{
    if s.len() == 0 {
        seq![s]
    } else {
        let before = pieces(s.drop_last(), sep);
        if s.last() == sep {
            before.push(Seq::empty())
        } else {
            before.update(before.len() - 1, before.last().push(s.last()))
        }
    }
}

/// The first position of `c` in `s`, or the length of `s` where there is none.
pub open spec fn first_position(s: Seq<char>, c: char) -> int
    decreases s.len(),
{
    if s.len() == 0 || s[0] == c {
        0
    } else {
        1 + first_position(s.drop_first(), c)
    }
}

/// What stands before and after the first `sep` of `s`.
pub open spec fn cut(s: Seq<char>, sep: char) -> Option<(Seq<char>, Seq<char>)> {
    let i = first_position(s, sep);
    if i < s.len() {
        Some((s.take(i), s.skip(i + 1)))
    } else {
        None
    }
}

/// The parts in order, with `sep` between each two of them.
pub open spec fn joined(parts: Seq<Seq<char>>, sep: Seq<char>) -> Seq<char>
    decreases parts.len(),
{
    if parts.len() == 0 {
        Seq::empty()
    } else if parts.len() == 1 {
        parts[0]
    } else {
        joined(parts.drop_last(), sep) + sep + parts.last()
    }
}

/// The character of a decimal digit.
pub open spec fn digit(d: nat) -> char {
    ((48 + d) as u8) as char
}

/// The decimal digits of `n`, without leading zeros.
pub open spec fn decimal_digits(n: nat) -> Seq<char>
    decreases n,
{
    if n < 10 {
        seq![digit(n)]
    } else {
        decimal_digits(n / 10).push(digit(n % 10))
    }
}

/// Whether `a` comes strictly before `b`: at the first place where the two
/// differ, `a` has the smaller character or has ended.
pub open spec fn text_before(a: Seq<char>, b: Seq<char>) -> bool
    decreases a.len(),
{
    if b.len() == 0 {
        false
    } else if a.len() == 0 {
        true
    } else if a[0] != b[0] {
        (a[0] as u32) < (b[0] as u32)
    } else {
        text_before(a.drop_first(), b.drop_first())
    }
}

/// Where nothing before a separator equals it, the text is cut there.
pub proof fn lemma_cut(before: Seq<char>, sep: char, after: Seq<char>)
    requires
        !before.contains(sep),
    ensures
        cut(before + seq![sep] + after, sep) == Some((before, after)),
{
    let s = before + seq![sep] + after;
    lemma_first_position(s, sep, before.len() as int);
    assert(s.take(before.len() as int) =~= before);
    assert(s.skip(before.len() as int + 1) =~= after);
}

/// The first position of a character is the one that nothing equal precedes.
pub proof fn lemma_first_position(s: Seq<char>, c: char, at: int)
    requires
        0 <= at < s.len(),
        s[at] == c,
        forall|i: int| 0 <= i < at ==> s[i] != c,
    ensures
        first_position(s, c) == at,
    decreases s.len(),
{
    if at > 0 {
        lemma_first_position(s.drop_first(), c, at - 1);
    }
}

/// The text around a separator splits on its own on either side of it.
pub proof fn lemma_pieces_concat(a: Seq<char>, sep: char, b: Seq<char>)
    ensures
        pieces(a + seq![sep] + b, sep) == pieces(a, sep) + pieces(b, sep),
        pieces(a, sep).len() > 0,
    decreases b.len(),
{
    lemma_pieces_len(a, sep);
    let s = a + seq![sep] + b;
    if b.len() == 0 {
        assert(s.drop_last() =~= a);
        assert(b =~= Seq::empty());
        assert(pieces(s, sep) =~= pieces(a, sep) + pieces(b, sep));
    } else {
        assert(s.drop_last() =~= a + seq![sep] + b.drop_last());
        lemma_pieces_concat(a, sep, b.drop_last());
        lemma_pieces_len(b.drop_last(), sep);
        assert(pieces(s, sep) =~= pieces(a, sep) + pieces(b, sep));
    }
}

/// There is always at least one piece.
pub proof fn lemma_pieces_len(s: Seq<char>, sep: char)
    ensures
        pieces(s, sep).len() > 0,
    decreases s.len(),
{
    if s.len() > 0 {
        lemma_pieces_len(s.drop_last(), sep);
    }
}

/// A text without the separator is its own only piece.
pub proof fn lemma_pieces_single(s: Seq<char>, sep: char)
    requires
        !s.contains(sep),
    ensures
        pieces(s, sep) == seq![s],
    decreases s.len(),
{
    if s.len() > 0 {
        assert forall|i: int| 0 <= i < s.len() implies s[i] != sep by {
            assert(s.contains(s[i]));
        }
        lemma_pieces_single(s.drop_last(), sep);
        assert(s.drop_last().push(s.last()) =~= s);
        assert(pieces(s, sep) =~= seq![s]);
    }
}

/// No piece holds the separator.
pub proof fn lemma_pieces_free(s: Seq<char>, sep: char)
    ensures
        forall|i: int| 0 <= i < pieces(s, sep).len() ==> !(#[trigger] pieces(s, sep)[i]).contains(sep),
    decreases s.len(),
{
    lemma_pieces_len(s, sep);
    if s.len() > 0 {
        lemma_pieces_free(s.drop_last(), sep);
        lemma_pieces_len(s.drop_last(), sep);
        let before = pieces(s.drop_last(), sep);
        assert forall|i: int| 0 <= i < pieces(s, sep).len() implies !(
        #[trigger] pieces(s, sep)[i]).contains(sep) by {
            if s.last() != sep && i == before.len() - 1 {
                let p = before.last();
                assert(!before[before.len() - 1].contains(sep));
                assert forall|j: int| 0 <= j < p.push(s.last()).len() implies p.push(s.last())[j]
                    != sep by {
                    if j < p.len() {
                        assert(p.contains(p[j]));
                    }
                }
            } else if s.last() == sep && i == before.len() {
            } else {
                assert(pieces(s, sep)[i] == before[i]);
            }
        }
    }
}

/// Different characters have different numbers.
pub proof fn lemma_char_number(x: char, y: char)
    ensures
        x != y ==> x as u32 != y as u32,
{
}

/// Of two texts one comes before the other, or they are the same, and never
/// more than one of the three holds.
pub proof fn lemma_text_order_total(a: Seq<char>, b: Seq<char>)
    ensures
        a == b || text_before(a, b) || text_before(b, a),
        !(text_before(a, b) && text_before(b, a)),
        !text_before(a, a),
    decreases a.len(),
{
    if a.len() == 0 {
        if b.len() == 0 {
            assert(a =~= b);
        }
    } else {
        lemma_text_order_total(a.drop_first(), a.drop_first());
        if b.len() > 0 {
            lemma_char_number(a[0], b[0]);
            lemma_text_order_total(a.drop_first(), b.drop_first());
            if a[0] == b[0] && a.drop_first() == b.drop_first() {
                assert(a =~= seq![a[0]] + a.drop_first());
                assert(b =~= seq![b[0]] + b.drop_first());
            }
        }
    }
}

/// What comes before a text that comes before a third comes before the third.
pub proof fn lemma_text_order_transitive(a: Seq<char>, b: Seq<char>, c: Seq<char>)
    requires
        text_before(a, b),
        text_before(b, c),
    ensures
        text_before(a, c),
    decreases a.len(),
{
    if a.len() > 0 && a[0] == b[0] && b[0] == c[0] {
        lemma_text_order_transitive(a.drop_first(), b.drop_first(), c.drop_first());
    }
}

/// The characters of a piece of text, in order.
pub fn chars_of(s: &str) -> (v: Vec<char>)
    ensures
        v@ == s@,
{
    let mut v: Vec<char> = Vec::new();
    for c in it: s.chars()
        invariant
            v@ == s@.take(it.index() as int),
            it.seq() == s@,
    {
        v.push(c);
    }
    v
}

/// The text that the characters from `from` up to `to` make.
pub fn text_between(v: &Vec<char>, from: usize, to: usize) -> (s: String)
    requires
        from <= to <= v@.len(),
    ensures
        s@ == v@.subrange(from as int, to as int),
{
    let mut s: String = String::new();
    let mut i: usize = from;
    while i < to
        invariant
            from <= i <= to <= v@.len(),
            s@ == v@.subrange(from as int, i as int),
        decreases to - i,
    {
        s.push(v[i]);
        i += 1;
    }
    s
}

/// The text that a run of characters makes.
pub fn text_of(v: &Vec<char>) -> (s: String)
    ensures
        s@ == v@,
{
    text_between(v, 0, v.len())
}

/// Whether two pieces of text hold the same characters.
pub fn same(a: &str, b: &str) -> (r: bool)
    ensures
        r == (a@ == b@),
{
    let a: String = a.to_owned();
    let b: String = b.to_owned();
    a == b
}

/// Whether a text is among others.
pub fn contains(list: &Vec<String>, s: &str) -> (r: bool)
    ensures
        r == views(list@).contains(s@),
{
    let s_text: String = s.to_owned();
    let mut i: usize = 0;
    while i < list.len()
        invariant
            i <= list@.len(),
            s_text@ == s@,
            forall|j: int| 0 <= j < i ==> views(list@)[j] != s@,
        decreases list@.len() - i,
    {
        if list[i] == s_text {
            assert(views(list@)[i as int] == s@);
            return true;
        }
        i += 1;
    }
    false
}

/// A copy of a text, where there is one.
pub fn copy_option(s: &Option<String>) -> (r: Option<String>)
    ensures
        opt_view(r) == opt_view(*s),
{
    match s {
        Some(s) => Some(s.clone()),
        None => None,
    }
}

/// A copy of each of several texts, in order.
pub fn copy_all(list: &Vec<String>) -> (r: Vec<String>)
    ensures
        views(r@) == views(list@),
{
    let mut r: Vec<String> = Vec::new();
    let mut i: usize = 0;
    while i < list.len()
        invariant
            i <= list@.len(),
            r@.len() == i,
            forall|j: int| 0 <= j < i ==> (#[trigger] r@[j])@ == list@[j]@,
        decreases list@.len() - i,
    {
        r.push(list[i].clone());
        i += 1;
    }
    assert(views(r@) =~= views(list@));
    r
}

/// Whether `s` starts with `prefix`.
pub fn starts_with(s: &str, prefix: &str) -> (r: bool)
    ensures
        r == prefix@.is_prefix_of(s@),
{
    let v: Vec<char> = chars_of(s);
    let p: Vec<char> = chars_of(prefix);
    if p.len() > v.len() {
        return false;
    }
    let mut i: usize = 0;
    while i < p.len()
        invariant
            v@ == s@,
            p@ == prefix@,
            i <= p@.len() <= v@.len(),
            forall|j: int| 0 <= j < i ==> p@[j] == v@[j],
        decreases p@.len() - i,
    {
        if p[i] != v[i] {
            assert(s@.subrange(0, p@.len() as int)[i as int] == v@[i as int]);
            return false;
        }
        i += 1;
    }
    assert(p@ =~= v@.subrange(0, p@.len() as int));
    true
}

/// Whether a character has the Unicode property `White_Space`.
pub fn is_white_space(c: char) -> (r: bool)
    ensures
        r == white_space(c),
{
    let n: u32 = c as u32;
    (0x9 <= n && n <= 0xd) || n == 0x20 || n == 0x85 || n == 0xa0 || n == 0x1680 || (0x2000 <= n
        && n <= 0x200a) || n == 0x2028 || n == 0x2029 || n == 0x202f || n == 0x205f || n == 0x3000
}

/// The text without the white space at either end.
pub fn trim(s: &str) -> (r: String)
    ensures
        r@ == trimmed(s@),
{
    let v: Vec<char> = chars_of(s);
    let mut from: usize = 0;
    assert(v@.skip(0) =~= v@);
    while from < v.len() && is_white_space(v[from])
        invariant
            from <= v@.len(),
            trimmed_start(v@.skip(from as int)) == trimmed_start(v@),
        decreases v@.len() - from,
    {
        assert(v@.skip(from as int).drop_first() =~= v@.skip(from + 1));
        from += 1;
    }
    let mut to: usize = v.len();
    assert(v@.subrange(from as int, to as int) =~= v@.skip(from as int));
    while to > from && is_white_space(v[to - 1])
        invariant
            from <= to <= v@.len(),
            trimmed_end(v@.subrange(from as int, to as int)) == trimmed(v@),
        decreases to,
    {
        assert(v@.subrange(from as int, to as int).drop_last() =~= v@.subrange(
            from as int,
            to - 1,
        ));
        to -= 1;
    }
    text_between(&v, from, to)
}

/// The text without any number of `c` at its start.
pub fn strip_leading(s: &str, c: char) -> (r: String)
    ensures
        r@ == without_leading(s@, c),
{
    let v: Vec<char> = chars_of(s);
    let mut from: usize = 0;
    assert(v@.skip(0) =~= v@);
    while from < v.len() && v[from] == c
        invariant
            from <= v@.len(),
            without_leading(v@.skip(from as int), c) == without_leading(v@, c),
        decreases v@.len() - from,
    {
        assert(v@.skip(from as int).drop_first() =~= v@.skip(from + 1));
        from += 1;
    }
    assert(v@.subrange(from as int, v@.len() as int) =~= v@.skip(from as int));
    text_between(&v, from, v.len())
}

/// The text without any number of `c` at its end.
pub fn strip_trailing(s: &str, c: char) -> (r: String)
    ensures
        r@ == without_trailing(s@, c),
{
    let v: Vec<char> = chars_of(s);
    let mut to: usize = v.len();
    assert(v@.take(to as int) =~= v@);
    while to > 0 && v[to - 1] == c
        invariant
            to <= v@.len(),
            without_trailing(v@.take(to as int), c) == without_trailing(v@, c),
        decreases to,
    {
        assert(v@.take(to as int).drop_last() =~= v@.take(to - 1));
        to -= 1;
    }
    assert(v@.subrange(0, to as int) =~= v@.take(to as int));
    text_between(&v, 0, to)
}

/// The text without its occurrences of `c`.
pub fn remove_char(s: &str, c: char) -> (r: String)
    ensures
        r@ == without_char(s@, c),
{
    let v: Vec<char> = chars_of(s);
    let mut r: String = String::new();
    let mut i: usize = 0;
    while i < v.len()
        invariant
            i <= v@.len(),
            r@ == without_char(v@.take(i as int), c),
        decreases v@.len() - i,
    {
        assert(v@.take(i + 1).drop_last() =~= v@.take(i as int));
        if v[i] != c {
            r.push(v[i]);
        }
        i += 1;
    }
    assert(v@.take(i as int) =~= v@);
    r
}

/// The runs of characters that the separator `sep` leaves in a piece of text.
pub fn split(s: &str, sep: char) -> (r: Vec<String>)
    ensures
        views(r@) == pieces(s@, sep),
{
    let v: Vec<char> = chars_of(s);
    let mut r: Vec<String> = Vec::new();
    let mut last: String = String::new();
    let mut i: usize = 0;
    assert(v@.take(0) =~= Seq::empty());
    assert(views(r@).push(last@) =~= pieces(v@.take(0), sep));
    while i < v.len()
        invariant
            i <= v@.len(),
            views(r@).push(last@) == pieces(v@.take(i as int), sep),
        decreases v@.len() - i,
    {
        let ghost before = views(r@).push(last@);
        assert(v@.take(i + 1).drop_last() =~= v@.take(i as int));
        if v[i] == sep {
            r.push(last);
            last = String::new();
            assert(views(r@).push(last@) =~= before.push(Seq::empty()));
        } else {
            last.push(v[i]);
            assert(views(r@).push(last@) =~= before.update(
                before.len() - 1,
                before.last().push(v@[i as int]),
            ));
        }
        i += 1;
    }
    assert(v@.take(i as int) =~= v@);
    r.push(last);
    assert(views(r@) =~= pieces(s@, sep));
    r
}

/// What stands before and after the first `sep` of a piece of text.
pub fn split_once(s: &str, sep: char) -> (r: Option<(String, String)>)
    ensures
        opt_view(r) == cut(s@, sep),
{
    let v: Vec<char> = chars_of(s);
    let mut i: usize = 0;
    assert(v@.skip(0) =~= v@);
    while i < v.len() && v[i] != sep
        invariant
            i <= v@.len(),
            first_position(v@, sep) == i + first_position(v@.skip(i as int), sep),
        decreases v@.len() - i,
    {
        assert(v@.skip(i as int).drop_first() =~= v@.skip(i + 1));
        i += 1;
    }
    if i < v.len() {
        let before: String = text_between(&v, 0, i);
        let after: String = text_between(&v, i + 1, v.len());
        assert(before@ =~= v@.take(i as int));
        assert(after@ =~= v@.skip(i + 1));
        Some((before, after))
    } else {
        None
    }
}

/// The parts in order, with `sep` between each two of them.
pub fn join(parts: &Vec<String>, sep: &str) -> (r: String)
    ensures
        r@ == joined(views(parts@), sep@),
{
    let mut r: Vec<char> = Vec::new();
    let sep: Vec<char> = chars_of(sep);
    let mut i: usize = 0;
    while i < parts.len()
        invariant
            i <= parts@.len(),
            r@ == joined(views(parts@).take(i as int), sep@),
        decreases parts@.len() - i,
    {
        let ghost so_far = views(parts@).take(i as int);
        let ghost next = views(parts@).take(i + 1);
        assert(next.drop_last() =~= so_far);
        if i > 0 {
            append_chars(&mut r, &sep);
        }
        append_chars(&mut r, &chars_of(&parts[i]));
        assert(r@ =~= joined(next, sep@));
        i += 1;
    }
    assert(views(parts@).take(i as int) =~= views(parts@));
    text_of(&r)
}

/// Appends the characters of `b` to `a`.
fn append_chars(a: &mut Vec<char>, b: &Vec<char>)
    ensures
        final(a)@ == old(a)@ + b@,
{
    let mut i: usize = 0;
    while i < b.len()
        invariant
            i <= b@.len(),
            a@ == old(a)@ + b@.take(i as int),
        decreases b@.len() - i,
    {
        a.push(b[i]);
        i += 1;
    }
    assert(b@.take(i as int) =~= b@);
}

/// Two pieces of text, one after the other.
pub fn concat(a: &str, b: &str) -> (r: String)
    ensures
        r@ == a@ + b@,
{
    let mut v: Vec<char> = chars_of(a);
    append_chars(&mut v, &chars_of(b));
    text_of(&v)
}

/// The decimal digits of a number.
pub fn decimal(n: u64) -> (r: String)
    ensures
        r@ == decimal_digits(n as nat),
    decreases n,
{
    let d: u8 = 48 + (n % 10) as u8;
    if n < 10 {
        let mut r: String = String::new();
        r.push(d as char);
        assert(r@ =~= seq![digit(n as nat)]);
        r
    } else {
        let mut r: String = decimal(n / 10);
        r.push(d as char);
        r
    }
}

/// Whether `a` comes strictly before `b` in the order of their characters.
pub fn is_before(a: &Vec<char>, b: &Vec<char>) -> (r: bool)
    ensures
        r == text_before(a@, b@),
{
    let mut i: usize = 0;
    assert(a@.skip(0) =~= a@);
    assert(b@.skip(0) =~= b@);
    while i < a.len() && i < b.len() && a[i] == b[i]
        invariant
            i <= a@.len(),
            i <= b@.len(),
            text_before(a@, b@) == text_before(a@.skip(i as int), b@.skip(i as int)),
        decreases a@.len() - i,
    {
        assert(a@.skip(i as int).drop_first() =~= a@.skip(i + 1));
        assert(b@.skip(i as int).drop_first() =~= b@.skip(i + 1));
        i += 1;
    }
    if i >= b.len() {
        false
    } else if i >= a.len() {
        true
    } else {
        (a[i] as u32) < (b[i] as u32)
    }
}

/// White space is the space, the tab, the breaks of lines and pages, and the
/// further spaces and breaks of Unicode.
pub proof fn lemma_white_space(c: char)
    ensures
        white_space(c) <==> seq![
            '\t',
            '\n',
            '\u{b}',
            '\u{c}',
            '\r',
            ' ',
            '\u{85}',
            '\u{a0}',
            '\u{1680}',
            '\u{2000}',
            '\u{2001}',
            '\u{2002}',
            '\u{2003}',
            '\u{2004}',
            '\u{2005}',
            '\u{2006}',
            '\u{2007}',
            '\u{2008}',
            '\u{2009}',
            '\u{200a}',
            '\u{2028}',
            '\u{2029}',
            '\u{202f}',
            '\u{205f}',
            '\u{3000}',
        ].contains(c),
{
    let all = seq![
        '\t',
        '\n',
        '\u{b}',
        '\u{c}',
        '\r',
        ' ',
        '\u{85}',
        '\u{a0}',
        '\u{1680}',
        '\u{2000}',
        '\u{2001}',
        '\u{2002}',
        '\u{2003}',
        '\u{2004}',
        '\u{2005}',
        '\u{2006}',
        '\u{2007}',
        '\u{2008}',
        '\u{2009}',
        '\u{200a}',
        '\u{2028}',
        '\u{2029}',
        '\u{202f}',
        '\u{205f}',
        '\u{3000}',
    ];
    if white_space(c) {
        let n = c as u32;
        let k: int = if n <= 0xd {
            n - 9
        } else if n == 0x20 {
            5
        } else if n == 0x85 {
            6
        } else if n == 0xa0 {
            7
        } else if n == 0x1680 {
            8
        } else if n <= 0x200a {
            n - 0x2000 + 9
        } else if n == 0x2028 {
            20
        } else if n == 0x2029 {
            21
        } else if n == 0x202f {
            22
        } else if n == 0x205f {
            23
        } else {
            24
        };
        lemma_char_number(all[k], c);
        assert(all[k] as u32 == n);
        assert(all[k] == c);
    } else if all.contains(c) {
        let k = choose|k: int| 0 <= k < all.len() && all[k] == c;
        assert(white_space(all[k]));
    }
}

/// What has white space around it is trimmed to what stands between.
pub proof fn lemma_trimmed_around(before: Seq<char>, core: Seq<char>, after: Seq<char>)
    requires
        forall|i: int| 0 <= i < before.len() ==> white_space(#[trigger] before[i]),
        forall|i: int| 0 <= i < after.len() ==> white_space(#[trigger] after[i]),
        core.len() > 0 ==> !white_space(core[0]) && !white_space(core.last()),
    ensures
        trimmed(before + core + after) == core,
    decreases before.len() + after.len(),
{
    let s = before + core + after;
    if before.len() > 0 {
        let rest = before.drop_first();
        assert(white_space(before[0]) && s[0] == before[0]);
        assert(s.drop_first() =~= rest + core + after);
        assert forall|i: int| 0 <= i < rest.len() implies white_space(#[trigger] rest[i]) by {
            assert(rest[i] == before[i + 1]);
        }
        lemma_trimmed_around(rest, core, after);
    } else if core.len() == 0 {
        assert(s =~= after);
        lemma_trimmed_blank(after);
        assert(core =~= Seq::empty());
    } else {
        assert(s =~= core + after);
        assert(s[0] == core[0]);
        assert(trimmed_start(s) == s);
        lemma_trimmed_end(core, after);
    }
}

proof fn lemma_trimmed_blank(s: Seq<char>)
    requires
        forall|i: int| 0 <= i < s.len() ==> white_space(#[trigger] s[i]),
    ensures
        trimmed(s) == Seq::<char>::empty(),
    decreases s.len(),
{
    if s.len() == 0 {
        assert(s =~= Seq::empty());
    } else {
        let rest = s.drop_first();
        assert(white_space(s[0]));
        assert forall|i: int| 0 <= i < rest.len() implies white_space(#[trigger] rest[i]) by {
            assert(rest[i] == s[i + 1]);
        }
        lemma_trimmed_blank(rest);
    }
}

proof fn lemma_trimmed_end(core: Seq<char>, after: Seq<char>)
    requires
        forall|i: int| 0 <= i < after.len() ==> white_space(#[trigger] after[i]),
        core.len() > 0,
        !white_space(core.last()),
    ensures
        trimmed_end(core + after) == core,
    decreases after.len(),
{
    if after.len() == 0 {
        assert(core + after =~= core);
    } else {
        assert(white_space(after[after.len() - 1]));
        assert((core + after).drop_last() =~= core + after.drop_last());
        lemma_trimmed_end(core, after.drop_last());
    }
}

/// Only white space is trimmed, and none is left at either end.
pub proof fn lemma_trimmed(s: Seq<char>) -> (ends: (int, int))
    ensures
        0 <= ends.0 <= ends.1 <= s.len(),
        trimmed(s) == s.subrange(ends.0, ends.1),
        forall|i: int| 0 <= i < ends.0 || ends.1 <= i < s.len() ==> white_space(#[trigger] s[i]),
        trimmed(s).len() > 0 ==> !white_space(trimmed(s)[0]) && !white_space(trimmed(s).last()),
    decreases s.len(),
{
    if s.len() > 0 && white_space(s[0]) {
        let rest = s.drop_first();
        let (i, j) = lemma_trimmed(rest);
        assert(rest.subrange(i, j) =~= s.subrange(i + 1, j + 1));
        assert forall|k: int| 0 <= k < i + 1 || j + 1 <= k < s.len() implies white_space(
            #[trigger] s[k],
        ) by {
            if k > 0 {
                assert(rest[k - 1] == s[k]);
            }
        }
        (i + 1, j + 1)
    } else {
        let j = lemma_trimmed_end_place(s);
        if j > 0 {
            assert(trimmed(s)[0] == s[0]);
        }
        (0, j)
    }
}

proof fn lemma_trimmed_end_place(s: Seq<char>) -> (j: int)
    ensures
        0 <= j <= s.len(),
        trimmed_end(s) == s.subrange(0, j),
        forall|i: int| j <= i < s.len() ==> white_space(#[trigger] s[i]),
        j > 0 ==> !white_space(s[j - 1]),
    decreases s.len(),
{
    if s.len() > 0 && white_space(s.last()) {
        let rest = s.drop_last();
        let j = lemma_trimmed_end_place(rest);
        assert(rest.subrange(0, j) =~= s.subrange(0, j));
        assert forall|i: int| j <= i < s.len() implies white_space(#[trigger] s[i]) by {
            if i < rest.len() {
                assert(rest[i] == s[i]);
            }
        }
        if j > 0 {
            assert(rest[j - 1] == s[j - 1]);
        }
        j
    } else {
        assert(s.subrange(0, s.len() as int) =~= s);
        s.len() as int
    }
}

/// The pieces of a text, with the separator between them, make the text again.
pub proof fn lemma_pieces_make_the_text(s: Seq<char>, sep: char)
    ensures
        joined(pieces(s, sep), seq![sep]) == s,
    decreases s.len(),
{
    lemma_pieces_len(s, sep);
    if s.len() == 0 {
        assert(pieces(s, sep)[0] == s);
    } else {
        let before = pieces(s.drop_last(), sep);
        let all = pieces(s, sep);
        lemma_pieces_len(s.drop_last(), sep);
        lemma_pieces_make_the_text(s.drop_last(), sep);
        if s.last() == sep {
            assert(all.drop_last() =~= before);
            assert(joined(all, seq![sep]) =~= joined(before, seq![sep]) + seq![sep]);
        } else {
            assert(all.drop_last() =~= before.drop_last());
            assert(all.last() == before.last().push(s.last()));
            if all.len() > 1 {
                assert(joined(all, seq![sep]) =~= joined(before, seq![sep]).push(s.last()));
            }
        }
        assert(s =~= s.drop_last().push(s.last()));
    }
}

/// A text is cut at its first separator, and only where it has one.
pub proof fn lemma_cut_parts(s: Seq<char>, sep: char)
    ensures
        match cut(s, sep) {
            Some((before, after)) => s == before + seq![sep] + after && !before.contains(sep),
            None => !s.contains(sep),
        },
{
    if s.contains(sep) {
        let i = lemma_first_place(s, sep);
        lemma_first_position(s, sep, i);
        assert(s =~= s.take(i) + seq![sep] + s.skip(i + 1));
    } else {
        lemma_no_position(s, sep);
    }
}

proof fn lemma_first_place(s: Seq<char>, c: char) -> (at: int)
    requires
        s.contains(c),
    ensures
        0 <= at < s.len(),
        s[at] == c,
        forall|i: int| 0 <= i < at ==> s[i] != c,
    decreases s.len(),
{
    if s[0] == c {
        0
    } else {
        let k = choose|k: int| 0 <= k < s.len() && s[k] == c;
        let rest = s.drop_first();
        assert(rest[k - 1] == c);
        let at = lemma_first_place(rest, c);
        assert forall|i: int| 0 <= i < at + 1 implies s[i] != c by {
            if i > 0 {
                assert(rest[i - 1] == s[i]);
            }
        }
        at + 1
    }
}

proof fn lemma_no_position(s: Seq<char>, c: char)
    requires
        !s.contains(c),
    ensures
        first_position(s, c) == s.len(),
    decreases s.len(),
{
    if s.len() > 0 {
        assert(s[0] != c);
        assert forall|i: int| 0 <= i < s.drop_first().len() implies s.drop_first()[i] != c by {
            assert(s[i + 1] != c);
        }
        lemma_no_position(s.drop_first(), c);
    }
}

/// Texts are ordered by the first place where they differ; a text that has
/// ended comes first.
pub proof fn lemma_text_order(start: Seq<char>, x: char, a: Seq<char>, y: char, b: Seq<char>)
    ensures
        text_before(start, start + seq![x] + a),
        (x as u32) < (y as u32) ==> text_before(start + seq![x] + a, start + seq![y] + b),
    decreases start.len(),
{
    let (s, t) = (start + seq![x] + a, start + seq![y] + b);
    if start.len() > 0 {
        lemma_text_order(start.drop_first(), x, a, y, b);
        assert(s.drop_first() =~= start.drop_first() + seq![x] + a);
        assert(t.drop_first() =~= start.drop_first() + seq![y] + b);
        assert(s[0] == start[0] && t[0] == start[0]);
    } else {
        assert(s[0] == x && t[0] == y);
    }
}

/// Removing a character removes all of it and nothing else.
pub proof fn lemma_without_char(a: Seq<char>, b: Seq<char>, c: char)
    ensures
        !without_char(a, c).contains(c),
        !a.contains(c) ==> without_char(a, c) == a,
        without_char(a + b, c) == without_char(a, c) + without_char(b, c),
    decreases a.len() + b.len(),
{
    if b.len() > 0 {
        lemma_without_char(a, b.drop_last(), c);
        assert((a + b).drop_last() =~= a + b.drop_last());
        assert(without_char(a + b, c) =~= without_char(a, c) + without_char(b, c));
    } else {
        assert(a + b =~= a);
        assert(without_char(a, c) + without_char(b, c) =~= without_char(a, c));
        if a.len() > 0 {
            let rest = a.drop_last();
            lemma_without_char(rest, b, c);
            if !a.contains(c) {
                assert(a[a.len() - 1] != c);
                assert forall|i: int| 0 <= i < rest.len() implies rest[i] != c by {
                    assert(a[i] != c);
                }
                assert(a =~= rest.push(a.last()));
            }
            if a.last() != c {
                let kept = without_char(rest, c);
                assert forall|i: int| 0 <= i < kept.push(a.last()).len() implies kept.push(
                    a.last(),
                )[i] != c by {
                    if i < kept.len() {
                        assert(kept.contains(kept[i]));
                    }
                }
            }
        }
    }
}

} // verus!

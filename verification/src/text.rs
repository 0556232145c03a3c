//! Splitting text the way the router's inputs are written.

use vstd::prelude::*;

verus! {

/// The characters with the Unicode property `White_Space`.
pub open spec fn is_space(c: char) -> bool {
    let n = c as u32;
    ||| 0x9 <= n <= 0xd
    ||| n == 0x20
    ||| n == 0x85
    ||| n == 0xa0
    ||| n == 0x1680
    ||| 0x2000 <= n <= 0x200a
    ||| n == 0x2028
    ||| n == 0x2029
    ||| n == 0x202f
    ||| n == 0x205f
    ||| n == 0x3000
}

/// Whether `c` is white space.
pub fn is_whitespace(c: char) -> (r: bool)
    ensures
        r == is_space(c),
{
    let n: u32 = c as u32;
    (0x9 <= n && n <= 0xd) || n == 0x20 || n == 0x85 || n == 0xa0 || n == 0x1680 || (0x2000 <= n
        && n <= 0x200a) || n == 0x2028 || n == 0x2029 || n == 0x202f || n == 0x205f || n == 0x3000
}

/// How many characters at the start of `s` are white space (`space`), or are
/// none (`!space`).
pub open spec fn leading(s: Seq<char>, space: bool) -> nat
    decreases s.len(),
{
    if s.len() > 0 && is_space(s[0]) == space {
        1 + leading(s.skip(1), space)
    } else {
        0
    }
}

proof fn lemma_leading(s: Seq<char>, space: bool)
    ensures
        leading(s, space) <= s.len(),
        forall|i: int| 0 <= i < leading(s, space) ==> is_space(#[trigger] s[i]) == space,
        leading(s, space) < s.len() ==> is_space(s[leading(s, space) as int]) != space,
    decreases s.len(),
{
    if s.len() > 0 && is_space(s[0]) == space {
        let t = s.skip(1);
        lemma_leading(t, space);
        assert forall|i: int| 0 <= i < leading(s, space) implies is_space(#[trigger] s[i])
            == space by {
            if i > 0 {
                assert(s[i] == t[i - 1]);
            }
        }
    }
}

proof fn lemma_leading_is(s: Seq<char>, space: bool, n: nat)
    requires
        n <= s.len(),
        forall|i: int| 0 <= i < n ==> is_space(#[trigger] s[i]) == space,
        n < s.len() ==> is_space(s[n as int]) != space,
    ensures
        leading(s, space) == n,
{
    lemma_leading(s, space);
    let m = leading(s, space);
    if m < n {
        assert(is_space(s[m as int]) == space);
    } else if n < m {
        assert(is_space(s[n as int]) == space);
    }
}

/// The words of `s`: its longest stretches without white space, in order.
pub open spec fn words(s: Seq<char>) -> Seq<Seq<char>>
    decreases s.len(),
    via words_decreases
{
    let t = s.skip(leading(s, true) as int);
    if t.len() == 0 {
        seq![]
    } else {
        let n = leading(t, false) as int;
        seq![t.take(n)] + words(t.skip(n))
    }
}

#[via_fn]
proof fn words_decreases(s: Seq<char>) {
    lemma_leading(s, true);
    let t = s.skip(leading(s, true) as int);
    lemma_leading(t, false);
    if t.len() > 0 {
        assert(t[0] == s[leading(s, true) as int]);
    }
}

/// The characters of a string as a vector.
pub fn to_chars(s: &str) -> (r: Vec<char>)
    ensures
        r@ == s@,
{
    let mut out: Vec<char> = Vec::new();
    for c in it: s.chars()
        invariant
            out@ == s@.take(it.index() as int),
            it.seq() == s@,
    {
        out.push(c);
        assert(s@.take(it.index() + 1) =~= s@.take(it.index() as int).push(c));
    }
    assert(s@.take(s@.len() as int) =~= s@);
    out
}

/// The words of a text, as `str::split_whitespace` gives them.
pub fn split_whitespace(s: &str) -> (r: Vec<String>)
    ensures
        r.deep_view() == words(s@),
{
    let chars = to_chars(s);
    let mut out: Vec<String> = Vec::new();
    let mut i: usize = 0;
    assert(s@.skip(0) =~= s@);
    while i < chars.len()
        invariant
            chars@ == s@,
            i <= chars.len(),
            words(s@) == out.deep_view() + words(s@.skip(i as int)),
        decreases chars.len() - i,
    {
        let start: usize = skip_run(&chars, i, true);
        let ghost rest = s@.skip(i as int);
        proof {
            lemma_leading(rest, true);
            assert(rest.skip(leading(rest, true) as int) =~= s@.skip(start as int));
        }
        if start == chars.len() {
            assert(words(rest) =~= seq![]);
            assert(words(s@) =~= out.deep_view());
            return out;
        }
        let end: usize = skip_run(&chars, start, false);
        let word = s.substring_char(start, end).to_owned();
        proof {
            let t = s@.skip(start as int);
            lemma_leading(t, false);
            assert(t[0] == rest[leading(rest, true) as int]);
            let n = leading(t, false) as int;
            assert(n > 0);
            assert(t.take(n) =~= s@.subrange(start as int, end as int));
            assert(t.skip(n) =~= s@.skip(end as int));
            assert(words(rest) =~= seq![t.take(n)] + words(t.skip(n)));
        }
        let ghost before = out.deep_view();
        out.push(word);
        assert(out.deep_view() =~= before.push(word@));
        assert(before + (seq![word@] + words(s@.skip(end as int))) =~= before.push(word@) + words(
            s@.skip(end as int),
        ));
        i = end;
    }
    proof {
        assert(s@.skip(i as int).len() == 0);
        assert(words(s@.skip(i as int)) =~= seq![]);
        assert(words(s@) =~= out.deep_view());
    }
    out
}

/// The first position from `from` on whose character is not of the kind
/// `space`, or the length.
fn skip_run(chars: &Vec<char>, from: usize, space: bool) -> (r: usize)
    requires
        from <= chars.len(),
    ensures
        from <= r <= chars.len(),
        r - from == leading(chars@.skip(from as int), space),
{
    let mut i: usize = from;
    while i < chars.len() && is_whitespace(chars[i]) == space
        invariant
            from <= i <= chars.len(),
            forall|k: int| from <= k < i ==> is_space(#[trigger] chars@[k]) == space,
        decreases chars.len() - i,
    {
        i += 1;
    }
    proof {
        let t = chars@.skip(from as int);
        assert forall|k: int| 0 <= k < i - from implies is_space(#[trigger] t[k]) == space by {
            assert(t[k] == chars@[k + from]);
        }
        lemma_leading_is(t, space, (i - from) as nat);
    }
    i
}

/// `s` without the white space at its two ends.
pub open spec fn trimmed(s: Seq<char>) -> Seq<char> {
    let t = s.skip(leading(s, true) as int);
    t.take(t.len() - leading(t.reverse(), true))
}

/// `s` without the white space at its two ends, as `str::trim` gives it.
pub fn trim(s: &str) -> (r: String)
    ensures
        r@ == trimmed(s@),
{
    let chars = to_chars(s);
    let start: usize = skip_run(&chars, 0, true);
    let mut end: usize = chars.len();
    assert(chars@.skip(0) =~= chars@);
    while start < end && is_whitespace(chars[end - 1])
        invariant
            start <= end <= chars.len(),
            forall|k: int| end <= k < chars.len() ==> is_space(#[trigger] chars@[k]),
        decreases end,
    {
        end -= 1;
    }
    proof {
        let t = s@.skip(start as int);
        let back = t.reverse();
        let n = (chars.len() - end) as nat;
        assert forall|k: int| 0 <= k < n implies is_space(#[trigger] back[k]) by {
            assert(back[k] == chars@[chars.len() - 1 - k]);
        }
        lemma_leading_is(back, true, n);
        assert(trimmed(s@) =~= s@.subrange(start as int, end as int));
    }
    s.substring_char(start, end).to_owned()
}

/// The position of the first `c` in `s`, or the length where there is none.
pub open spec fn find(s: Seq<char>, c: char) -> nat
    decreases s.len(),
{
    if s.len() > 0 && s[0] != c {
        1 + find(s.skip(1), c)
    } else {
        0
    }
}

pub(crate) proof fn lemma_find(s: Seq<char>, c: char)
    ensures
        find(s, c) <= s.len(),
        forall|i: int| 0 <= i < find(s, c) ==> #[trigger] s[i] != c,
        find(s, c) < s.len() ==> s[find(s, c) as int] == c,
    decreases s.len(),
{
    if s.len() > 0 && s[0] != c {
        let t = s.skip(1);
        lemma_find(t, c);
        assert forall|i: int| 0 <= i < find(s, c) implies #[trigger] s[i] != c by {
            if i > 0 {
                assert(s[i] == t[i - 1]);
            }
        }
    }
}

pub(crate) proof fn lemma_find_is(s: Seq<char>, c: char, n: nat)
    requires
        n <= s.len(),
        forall|i: int| 0 <= i < n ==> #[trigger] s[i] != c,
        n < s.len() ==> s[n as int] == c,
    ensures
        find(s, c) == n,
{
    lemma_find(s, c);
    let m = find(s, c);
    if m < n {
        assert(s[m as int] != c);
    } else if n < m {
        assert(s[n as int] != c);
    }
}

/// The pieces of `s` between the occurrences of `c`; there is one more piece
/// than there are occurrences.
pub open spec fn pieces(s: Seq<char>, c: char) -> Seq<Seq<char>>
    decreases s.len(),
    via pieces_decreases
{
    let n = find(s, c) as int;
    if n < s.len() {
        seq![s.take(n)] + pieces(s.skip(n + 1), c)
    } else {
        seq![s]
    }
}

#[via_fn]
proof fn pieces_decreases(s: Seq<char>, c: char) {
    lemma_find(s, c);
}

/// There is always a piece, if only an empty one.
pub proof fn lemma_pieces_nonempty(s: Seq<char>, c: char)
    ensures
        pieces(s, c).len() > 0,
{
    if find(s, c) < s.len() {
        assert(pieces(s, c).len() > 0);
    }
}

/// A line of text without the carriage return that ends it.
pub open spec fn without_return(s: Seq<char>) -> Seq<char> {
    if s.len() > 0 && s.last() == '\r' {
        s.drop_last()
    } else {
        s
    }
}

/// The lines of `s`. A line ends in a line feed, or in a carriage return and a
/// line feed; the last line may go without.
pub open spec fn text_lines(s: Seq<char>) -> Seq<Seq<char>>
    decreases s.len(),
    via text_lines_decreases
{
    let n = find(s, '\n') as int;
    if s.len() == 0 {
        seq![]
    } else if n < s.len() {
        seq![without_return(s.take(n))] + text_lines(s.skip(n + 1))
    } else {
        seq![s]
    }
}

#[via_fn]
proof fn text_lines_decreases(s: Seq<char>) {
    lemma_find(s, '\n');
}

/// The first position from `from` on that holds `c`, or the length.
fn find_from(chars: &Vec<char>, from: usize, c: char) -> (r: usize)
    requires
        from <= chars.len(),
    ensures
        from <= r <= chars.len(),
        r - from == find(chars@.skip(from as int), c),
{
    let mut i: usize = from;
    while i < chars.len() && chars[i] != c
        invariant
            from <= i <= chars.len(),
            forall|k: int| from <= k < i ==> #[trigger] chars@[k] != c,
        decreases chars.len() - i,
    {
        i += 1;
    }
    proof {
        let t = chars@.skip(from as int);
        assert forall|k: int| 0 <= k < i - from implies #[trigger] t[k] != c by {
            assert(t[k] == chars@[k + from]);
        }
        lemma_find_is(t, c, (i - from) as nat);
    }
    i
}

/// The pieces of a text between the occurrences of a character, as
/// `str::split` gives them.
pub fn split(s: &str, c: char) -> (r: Vec<String>)
    ensures
        r.deep_view() == pieces(s@, c),
{
    let chars = to_chars(s);
    let mut out: Vec<String> = Vec::new();
    let mut i: usize = 0;
    assert(s@.skip(0) =~= s@);
    loop
        invariant
            chars@ == s@,
            i <= chars.len(),
            pieces(s@, c) == out.deep_view() + pieces(s@.skip(i as int), c),
        decreases chars.len() - i,
    {
        let end: usize = find_from(&chars, i, c);
        let piece = s.substring_char(i, end).to_owned();
        let ghost before = out.deep_view();
        let ghost rest = s@.skip(i as int);
        out.push(piece);
        assert(out.deep_view() =~= before.push(piece@));
        if end == chars.len() {
            proof {
                assert(rest =~= piece@);
                assert(pieces(rest, c) =~= seq![rest]);
                assert(pieces(s@, c) =~= out.deep_view());
            }
            return out;
        }
        proof {
            let n = end - i;
            assert(rest.take(n) =~= piece@);
            assert(rest.skip(n + 1) =~= s@.skip(end + 1));
            assert(pieces(rest, c) =~= seq![piece@] + pieces(s@.skip(end + 1), c));
            assert(before + (seq![piece@] + pieces(s@.skip(end + 1), c)) =~= before.push(piece@)
                + pieces(s@.skip(end + 1), c));
        }
        i = end + 1;
    }
}

/// The lines of a text, as `str::lines` gives them.
pub fn lines(s: &str) -> (r: Vec<String>)
    ensures
        r.deep_view() == text_lines(s@),
{
    let chars = to_chars(s);
    let mut out: Vec<String> = Vec::new();
    let mut i: usize = 0;
    assert(s@.skip(0) =~= s@);
    while i < chars.len()
        invariant
            chars@ == s@,
            i <= chars.len(),
            text_lines(s@) == out.deep_view() + text_lines(s@.skip(i as int)),
        decreases chars.len() - i,
    {
        let end: usize = find_from(&chars, i, '\n');
        let ghost before = out.deep_view();
        let ghost rest = s@.skip(i as int);
        if end == chars.len() {
            let line = s.substring_char(i, end).to_owned();
            out.push(line);
            proof {
                assert(out.deep_view() =~= before.push(line@));
                assert(rest =~= line@);
                assert(text_lines(rest) =~= seq![rest]);
                assert(text_lines(s@) =~= out.deep_view());
            }
            return out;
        }
        let stop: usize = if end > i && chars[end - 1] == '\r' {
            end - 1
        } else {
            end
        };
        let line = s.substring_char(i, stop).to_owned();
        out.push(line);
        proof {
            let n = end - i;
            assert(out.deep_view() =~= before.push(line@));
            assert(without_return(rest.take(n)) =~= line@);
            assert(rest.skip(n + 1) =~= s@.skip(end + 1));
            assert(text_lines(rest) =~= seq![line@] + text_lines(s@.skip(end + 1)));
            assert(before + (seq![line@] + text_lines(s@.skip(end + 1))) =~= before.push(line@)
                + text_lines(s@.skip(end + 1)));
        }
        i = end + 1;
    }
    proof {
        assert(s@.skip(i as int).len() == 0);
        assert(text_lines(s@.skip(i as int)) =~= seq![]);
        assert(text_lines(s@) =~= out.deep_view());
    }
    out
}

/// What stands before the first `c` in `s`: all of it where there is none.
pub open spec fn before_first(s: Seq<char>, c: char) -> Seq<char> {
    s.take(find(s, c) as int)
}

/// What stands before the first `c` in a text.
pub fn until(s: &str, c: char) -> (r: String)
    ensures
        r@ == before_first(s@, c),
{
    let chars = to_chars(s);
    let end: usize = find_from(&chars, 0, c);
    assert(s@.skip(0) =~= s@);
    assert(s@.subrange(0, end as int) =~= before_first(s@, c));
    s.substring_char(0, end).to_owned()
}

/// Whether `s` starts with `prefix`.
pub open spec fn has_prefix(s: Seq<char>, prefix: Seq<char>) -> bool {
    prefix.len() <= s.len() && s.take(prefix.len() as int) == prefix
}

/// What follows a prefix, as `str::strip_prefix` gives it.
pub fn strip_prefix(s: &str, prefix: &str) -> (r: Option<String>)
    ensures
        r is Some <==> has_prefix(s@, prefix@),
        r matches Some(rest) ==> rest@ == s@.skip(prefix@.len() as int),
{
    let a = to_chars(s);
    let b = to_chars(prefix);
    if b.len() > a.len() {
        return None;
    }
    let mut i: usize = 0;
    while i < b.len()
        invariant
            i <= b.len() <= a.len(),
            a@ == s@,
            b@ == prefix@,
            forall|k: int| 0 <= k < i ==> #[trigger] a@[k] == b@[k],
        decreases b.len() - i,
    {
        if a[i] != b[i] {
            assert(s@.take(prefix@.len() as int)[i as int] == a@[i as int]);
            return None;
        }
        i += 1;
    }
    assert(s@.take(prefix@.len() as int) =~= prefix@);
    assert(s@.subrange(i as int, s@.len() as int) =~= s@.skip(i as int));
    Some(s.substring_char(i, a.len()).to_owned())
}

/// Whether two texts are the same.
pub fn same(a: &str, b: &str) -> (r: bool)
    ensures
        r == (a@ == b@),
{
    let x = to_chars(a);
    let y = to_chars(b);
    if x.len() != y.len() {
        return false;
    }
    let mut i: usize = 0;
    while i < x.len()
        invariant
            x@ == a@,
            y@ == b@,
            x.len() == y.len(),
            i <= x.len(),
            forall|k: int| 0 <= k < i ==> #[trigger] x@[k] == y@[k],
        decreases x.len() - i,
    {
        if x[i] != y[i] {
            return false;
        }
        i += 1;
    }
    assert(x@ =~= y@);
    true
}

/// `a` followed by `b`.
pub fn joined(a: &str, b: &str) -> (r: String)
    ensures
        r@ == a@ + b@,
{
    let mut out: String = a.to_owned();
    out.append(b);
    out
}

/// To cut a text at each of a character: where the text has none it is one piece,
/// and where it has one, the pieces are those in front of it and those behind it.
pub proof fn law_text_is_cut_at_each(a: Seq<char>, b: Seq<char>, c: char)
    ensures
        !a.contains(c) ==> pieces(a, c) == seq![a],
        pieces(a + seq![c] + b, c) == pieces(a, c) + pieces(b, c),
    decreases a.len(),
{
    lemma_find(a, c);
    let whole = a + seq![c] + b;
    lemma_find(whole, c);
    let n = find(a, c) as int;
    if n < a.len() {
        assert(a.contains(a[n]));
        lemma_find_is(whole, c, n as nat);
        let rest = a.skip(n + 1);
        assert(whole.take(n) =~= a.take(n));
        assert(whole.skip(n + 1) =~= rest + seq![c] + b);
        law_text_is_cut_at_each(rest, b, c);
        assert(pieces(whole, c) =~= seq![a.take(n)] + (pieces(rest, c) + pieces(b, c)));
        assert(pieces(a, c) =~= seq![a.take(n)] + pieces(rest, c));
    } else {
        assert(whole[n] == c);
        lemma_find_is(whole, c, n as nat);
        assert(whole.take(n) =~= a);
        assert(whole.skip(n + 1) =~= b);
        assert(pieces(whole, c) =~= seq![a] + pieces(b, c));
    }
}

/// The part of a text before the first of a character: what stands in front of
/// it, or the whole text where there is none.
pub proof fn law_text_before_first(a: Seq<char>, b: Seq<char>, c: char)
    requires
        !a.contains(c),
    ensures
        before_first(a + seq![c] + b, c) == a,
        before_first(a, c) == a,
{
    let whole = a + seq![c] + b;
    let n = a.len() as int;
    assert forall|i: int| 0 <= i < n implies #[trigger] whole[i] != c by {
        assert(a.contains(a[i]));
    }
    assert(whole[n] == c);
    lemma_find_is(whole, c, n as nat);
    assert(whole.take(n) =~= a);
    lemma_find(a, c);
    if find(a, c) < a.len() {
        assert(a.contains(a[find(a, c) as int]));
    }
    assert(a.take(n) =~= a);
}

/// The lines of a text: each ends at a line feed, and a carriage return in front
/// of that belongs to the end; nothing at all has no line.
pub proof fn law_lines_end_at_line_feeds(line: Seq<char>, rest: Seq<char>)
    requires
        !line.contains('\n'),
    ensures
        text_lines(Seq::empty()) == Seq::<Seq<char>>::empty(),
        line.len() > 0 ==> text_lines(line) == seq![line],
        !(line.len() > 0 && line.last() == '\r') ==> text_lines(line + seq!['\n'] + rest)
            == seq![line] + text_lines(rest),
        text_lines(line + seq!['\r', '\n'] + rest) == seq![line] + text_lines(rest),
{
    let whole = line + seq!['\n'] + rest;
    let n = line.len() as int;
    law_text_before_first(line, rest, '\n');
    assert forall|i: int| 0 <= i < n implies #[trigger] line[i] != '\n' by {
        assert(line.contains(line[i]));
    }
    lemma_find(line, '\n');
    assert(whole[n] == '\n');
    assert forall|i: int| 0 <= i < n implies #[trigger] whole[i] != '\n' by {
        assert(whole[i] == line[i]);
    }
    lemma_find_is(whole, '\n', n as nat);
    assert(whole.take(n) =~= line);
    assert(whole.skip(n + 1) =~= rest);
    let other = line + seq!['\r', '\n'] + rest;
    assert forall|i: int| 0 <= i < n + 1 implies #[trigger] other[i] != '\n' by {
        if i < n {
            assert(other[i] == line[i]);
        }
    }
    assert(other[n + 1] == '\n');
    lemma_find_is(other, '\n', (n + 1) as nat);
    assert(other.take(n + 1) =~= line.push('\r'));
    assert(other.take(n + 1).drop_last() =~= line);
    assert(other.skip(n + 2) =~= rest);
}

/// Whether a text holds no white space.
pub open spec fn is_word(s: Seq<char>) -> bool {
    s.len() > 0 && forall|i: int| 0 <= i < s.len() ==> !is_space(#[trigger] s[i])
}

/// The words of a text: white space is no part of any, each stretch without it is
/// one, and they come in the order of the text.
pub proof fn law_words_stand_between_spaces(word: Seq<char>, space: char, rest: Seq<char>)
    requires
        is_space(space),
    ensures
        words(Seq::empty()) == Seq::<Seq<char>>::empty(),
        words(seq![space] + rest) == words(rest),
        is_word(word) ==> words(word) == seq![word],
        is_word(word) ==> words(word + seq![space] + rest) == seq![word] + words(rest),
{
    let empty = Seq::<char>::empty();
    lemma_leading(empty, true);
    assert(empty.skip(0).len() == 0);
    lemma_space_is_passed_over(space, rest);
    if is_word(word) {
        lemma_leading(word, true);
        assert(leading(word, true) == 0) by {
            assert(!is_space(word[0]));
        }
        assert(word.skip(0) =~= word);
        lemma_leading(word, false);
        assert(leading(word, false) == word.len());
        assert(word.take(word.len() as int) =~= word);
        assert(word.skip(word.len() as int) =~= empty);
        assert(words(word) =~= seq![word] + words(empty));
        let whole = word + seq![space] + rest;
        assert(whole[0] == word[0]);
        assert(leading(whole, true) == 0);
        assert(whole.skip(0) =~= whole);
        lemma_leading(whole, false);
        let n = leading(whole, false) as int;
        assert(whole[word.len() as int] == space);
        assert(n == word.len()) by {
            if n < word.len() {
                assert(whole[n] == word[n]);
                assert(!is_space(word[n]));
            }
        }
        assert(whole.take(n) =~= word);
        assert(whole.skip(n) =~= seq![space] + rest);
    }
}

proof fn lemma_space_is_passed_over(space: char, rest: Seq<char>)
    requires
        is_space(space),
    ensures
        words(seq![space] + rest) == words(rest),
{
    let whole = seq![space] + rest;
    assert(whole.skip(1) =~= rest);
    assert(leading(whole, true) == 1 + leading(rest, true));
    let n = leading(rest, true) as int;
    lemma_leading(rest, true);
    assert(whole.skip(n + 1) =~= rest.skip(n));
}

/// To trim a text takes all white space off its two ends and nothing else.
pub proof fn law_trimming_leaves_the_middle(before: Seq<char>, middle: Seq<char>, after: Seq<char>)
    requires
        forall|i: int| 0 <= i < before.len() ==> is_space(#[trigger] before[i]),
        forall|i: int| 0 <= i < after.len() ==> is_space(#[trigger] after[i]),
        middle.len() > 0,
        !is_space(middle[0]),
        !is_space(middle.last()),
    ensures
        trimmed(before + middle + after) == middle,
        trimmed(before) == Seq::<char>::empty(),
{
    let whole = before + middle + after;
    lemma_leading_is(whole, true, before.len());
    let t = whole.skip(before.len() as int);
    assert(t =~= middle + after);
    let r = t.reverse();
    assert forall|i: int| 0 <= i < after.len() implies is_space(#[trigger] r[i]) by {
        assert(r[i] == after[after.len() - 1 - i]);
    }
    assert(r[after.len() as int] == middle.last());
    lemma_leading_is(r, true, after.len());
    assert(t.take(t.len() - after.len()) =~= middle);
    lemma_leading_is(before, true, before.len());
    assert(before.skip(before.len() as int).len() == 0);
    assert(trimmed(before) =~= Seq::<char>::empty()) by {
        let none = before.skip(before.len() as int);
        lemma_leading(none.reverse(), true);
    }
}

/// A text has a prefix exactly where it is the prefix and something behind it.
pub proof fn law_prefix_stands_in_front(s: Seq<char>, prefix: Seq<char>)
    ensures
        has_prefix(s, prefix) <==> exists|rest: Seq<char>| s == #[trigger] (prefix + rest),
{
    if has_prefix(s, prefix) {
        assert(s =~= prefix + s.skip(prefix.len() as int));
    }
    if exists|rest: Seq<char>| s == #[trigger] (prefix + rest) {
        let rest = choose|rest: Seq<char>| s == #[trigger] (prefix + rest);
        assert(s.take(prefix.len() as int) =~= prefix);
    }
}

/// Which characters are white space: the 25 of Unicode, by their numbers.
pub proof fn law_spaces_are_listed(c: char)
    ensures
        is_space(c) <==> seq![
            9u32,
            10,
            11,
            12,
            13,
            32,
            133,
            160,
            5760,
            8192,
            8193,
            8194,
            8195,
            8196,
            8197,
            8198,
            8199,
            8200,
            8201,
            8202,
            8232,
            8233,
            8239,
            8287,
            12288,
        ].contains(c as u32),
{
    let all = seq![
        9u32,
        10,
        11,
        12,
        13,
        32,
        133,
        160,
        5760,
        8192,
        8193,
        8194,
        8195,
        8196,
        8197,
        8198,
        8199,
        8200,
        8201,
        8202,
        8232,
        8233,
        8239,
        8287,
        12288,
    ];
    let n = c as u32;
    assert(all[0] == 9 && all[1] == 10 && all[2] == 11 && all[3] == 12 && all[4] == 13);
    assert(all[5] == 32 && all[6] == 133 && all[7] == 160 && all[8] == 5760);
    assert(all[9] == 8192 && all[10] == 8193 && all[11] == 8194 && all[12] == 8195);
    assert(all[13] == 8196 && all[14] == 8197 && all[15] == 8198 && all[16] == 8199);
    assert(all[17] == 8200 && all[18] == 8201 && all[19] == 8202 && all[20] == 8232);
    assert(all[21] == 8233 && all[22] == 8239 && all[23] == 8287 && all[24] == 12288);
}

} // verus!

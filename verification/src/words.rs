//! Plain text taken apart: lines, words, pairs and numbers.

use vstd::prelude::*;

use crate::text::decimal;

verus! {

/// The character has the Unicode property `White_Space`.
pub open spec fn white_space(c: char) -> bool {
    let n = c as u32;
    ||| 0x9 <= n <= 0xD
    ||| n == 0x20
    ||| n == 0x85
    ||| n == 0xA0
    ||| n == 0x1680
    ||| 0x2000 <= n <= 0x200A
    ||| n == 0x2028
    ||| n == 0x2029
    ||| n == 0x202F
    ||| n == 0x205F
    ||| n == 0x3000
}

/// [`char::is_whitespace`] holds of the characters that have the Unicode
/// property `White_Space`, and of no others.
pub assume_specification[ char::is_whitespace ](c: char) -> (r: bool)
    ensures
        r == white_space(c),
;

/// All characters of the text are ASCII.
pub open spec fn all_ascii(s: Seq<char>) -> bool {
    forall|i: int| 0 <= i < s.len() ==> (#[trigger] s[i] as u32) < 0x80
}

/// The text with `a` to `z` in place of `A` to `Z`.
pub open spec fn ascii_lowered(s: Seq<char>) -> Seq<char> {
    s.map_values(
        |c: char|
            if 'A' <= c <= 'Z' {
                ((c as u32) + 32) as char
            } else {
                c
            },
    )
}

/// What [`str::to_lowercase`] makes of a text.
pub uninterp spec fn lowercase(s: Seq<char>) -> Seq<char>;

/// Calls [`str::to_lowercase`]. Its result is a function of the text, named
/// [`lowercase`]. In a text of ASCII characters `A` to `Z` become `a` to `z`
/// and the rest stays. What becomes of other characters is not stated.
#[verifier::external_body]
fn str_to_lowercase(s: &str) -> (r: String)
    ensures
        r@ == lowercase(s@),
        all_ascii(s@) ==> r@ == ascii_lowered(s@),
{
    s.to_lowercase()
}

/// The text in lower case.
pub open spec fn lowered(s: Seq<char>) -> Seq<char> {
    if all_ascii(s) {
        ascii_lowered(s)
    } else {
        lowercase(s)
    }
}

/// Takes a text in lower case.
pub(crate) fn to_lowercase(s: &str) -> (r: String)
    ensures
        r@ == lowered(s@),
{
    str_to_lowercase(s)
}

/// Whether two texts are the same.
pub(crate) fn same_text(a: &str, b: &str) -> (r: bool)
    ensures
        r == (a@ == b@),
{
    a.to_owned() == b.to_owned()
}

/// The characters of a text.
pub(crate) fn chars_of(s: &str) -> (r: Vec<char>)
    ensures
        r@ == s@,
{
    let mut v: Vec<char> = Vec::new();
    for c in it: s.chars()
        invariant
            v@.len() == it.index(),
            it.seq() == s@,
            forall|i: int| 0 <= i < v@.len() ==> v@[i] == it.seq()[i],
    {
        v.push(c);
    }
    assert(v@ =~= s@);
    v
}

/// A text of characters.
pub(crate) fn text_from(v: &[char]) -> (r: String)
    ensures
        r@ == v@,
{
    let mut s = String::new();
    for i in 0..v.len()
        invariant
            s@ == v@.take(i as int),
    {
        s.push(v[i]);
        assert(v@.take(i + 1) =~= v@.take(i as int).push(v@[i as int]));
    }
    assert(v@.take(v@.len() as int) =~= v@);
    s
}

// --- white space --------------------------------------------------------------

/// A text without the white space before it.
pub open spec fn trim_start(s: Seq<char>) -> Seq<char>
    decreases s.len(),
{
    if s.len() > 0 && white_space(s[0]) {
        trim_start(s.drop_first())
    } else {
        s
    }
}

/// A text without the white space behind it.
pub open spec fn trim_end(s: Seq<char>) -> Seq<char>
    decreases s.len(),
{
    if s.len() > 0 && white_space(s.last()) {
        trim_end(s.drop_last())
    } else {
        s
    }
}

/// A text without the white space around it.
pub open spec fn trimmed(s: Seq<char>) -> Seq<char> {
    trim_end(trim_start(s))
}

/// The characters of a text without the white space around it.
pub(crate) fn trim(s: &[char]) -> (r: Vec<char>)
    ensures
        r@ == trimmed(s@),
{
    let mut a: usize = 0;
    assert(s@.skip(0) =~= s@);
    while a < s.len() && s[a].is_whitespace()
        invariant
            a <= s@.len(),
            trim_start(s@) == trim_start(s@.skip(a as int)),
        decreases s@.len() - a,
    {
        assert(s@.skip(a as int).drop_first() =~= s@.skip(a + 1));
        a = a + 1;
    }
    let mut b: usize = s.len();
    assert(s@.subrange(a as int, b as int) =~= s@.skip(a as int));
    while b > a && s[b - 1].is_whitespace()
        invariant
            a <= b <= s@.len(),
            trimmed(s@) == trim_end(s@.subrange(a as int, b as int)),
        decreases b,
    {
        assert(s@.subrange(a as int, b as int).drop_last() =~= s@.subrange(a as int, b - 1));
        b = b - 1;
    }
    let r = vstd::slice::slice_to_vec(vstd::slice::slice_subrange(s, a, b));
    r
}

/// The words of a text: its longest runs without white space.
pub open spec fn words_of(s: Seq<char>) -> Seq<Seq<char>>
    decreases s.len(),
{
    if s.len() == 0 {
        Seq::empty()
    } else {
        let before = words_of(s.drop_last());
        if white_space(s.last()) {
            before
        } else if s.len() >= 2 && !white_space(s[s.len() - 2]) {
            before.drop_last().push(before.last().push(s.last()))
        } else {
            before.push(seq![s.last()])
        }
    }
}

/// What a list of texts holds.
pub open spec fn texts_view(v: Seq<String>) -> Seq<Seq<char>> {
    v.map_values(|t: String| t@)
}

/// The words of a text.
pub fn words(text: &str) -> (r: Vec<String>)
    ensures
        texts_view(r@) == words_of(text@),
{
    let s = chars_of(text);
    let mut done: Vec<String> = Vec::new();
    let mut word = String::new();
    let mut inside = false;
    assert(texts_view(done@) =~= words_of(s@.take(0)));
    for i in 0..s.len()
        invariant
            inside == (i > 0 && !white_space(s@[i - 1])),
            inside ==> words_of(s@.take(i as int)) == texts_view(done@).push(word@),
            !inside ==> words_of(s@.take(i as int)) == texts_view(done@) && word@.len() == 0,
    {
        let ghost had = texts_view(done@);
        let ghost was = word@;
        let c = s[i];
        proof {
            let t = s@.take(i + 1);
            assert(t.drop_last() =~= s@.take(i as int));
            assert(t.last() == c);
            if i > 0 {
                assert(t[t.len() - 2] == s@[i - 1]);
            }
        }
        if c.is_whitespace() {
            if inside {
                done.push(word);
                assert(texts_view(done@) =~= had.push(was));
                word = String::new();
                inside = false;
            }
        } else {
            word.push(c);
            proof {
                if inside {
                    assert(had.push(was).drop_last() =~= had);
                } else {
                    assert(word@ =~= seq![c]);
                }
            }
            inside = true;
        }
    }
    assert(s@.take(s@.len() as int) =~= s@);
    if inside {
        let ghost had = texts_view(done@);
        done.push(word);
        assert(texts_view(done@) =~= had.push(word@));
    }
    done
}

/// Texts put together, with another between them.
pub open spec fn joined(list: Seq<Seq<char>>, between: Seq<char>) -> Seq<char>
    decreases list.len(),
{
    if list.len() == 0 {
        Seq::empty()
    } else if list.len() == 1 {
        list[0]
    } else {
        joined(list.drop_last(), between) + between + list.last()
    }
}

/// The texts from index `from` on, put together with another between them.
pub(crate) fn join_from(list: &[String], from: usize, between: &str) -> (r: String)
    requires
        from <= list@.len(),
    ensures
        r@ == joined(texts_view(list@).skip(from as int), between@),
{
    let ghost all = texts_view(list@);
    let ghost rest = all.skip(from as int);
    let mut s = String::new();
    assert(s@ =~= joined(rest.take(0), between@));
    for i in from..list.len()
        invariant
            from <= i,
            all == texts_view(list@),
            rest == all.skip(from as int),
            s@ == joined(rest.take(i - from), between@),
    {
        let ghost t = rest.take(i - from + 1);
        assert(t.drop_last() =~= rest.take(i - from));
        assert(t.last() == list@[i as int]@);
        if i > from {
            s.append(between);
        }
        s.append(list[i].as_str());
        if i == from {
            assert(s@ =~= t[0]);
        }
    }
    assert(rest.take(list@.len() - from) =~= rest);
    s
}

// --- lines and pairs ----------------------------------------------------------

/// The pieces of a text between its line feeds.
pub open spec fn pieces(s: Seq<char>) -> Seq<Seq<char>>
    decreases s.len(),
{
    if s.len() == 0 {
        seq![Seq::empty()]
    } else {
        let before = pieces(s.drop_last());
        if s.last() == '\n' {
            before.push(Seq::empty())
        } else {
            before.drop_last().push(before.last().push(s.last()))
        }
    }
}

/// A line without the carriage return at its end.
pub open spec fn strip_return(s: Seq<char>) -> Seq<char> {
    if s.len() > 0 && s.last() == '\r' {
        s.drop_last()
    } else {
        s
    }
}

/// The lines of a text: what ends in a line feed, with or without a carriage
/// return before it, and what follows the last one, if anything does.
pub open spec fn lines_of(s: Seq<char>) -> Seq<Seq<char>> {
    let all = pieces(s);
    let ended = all.drop_last().map_values(|l: Seq<char>| strip_return(l));
    if all.last().len() == 0 {
        ended
    } else {
        ended.push(all.last())
    }
}

/// What a list of lines holds.
pub open spec fn lines_view(v: Seq<Vec<char>>) -> Seq<Seq<char>> {
    v.map_values(|l: Vec<char>| l@)
}

/// The lines of a text.
pub(crate) fn lines(text: &str) -> (r: Vec<Vec<char>>)
    ensures
        lines_view(r@) == lines_of(text@),
{
    let s = chars_of(text);
    let mut done: Vec<Vec<char>> = Vec::new();
    let mut line: Vec<char> = Vec::new();
    let ghost strip = |l: Seq<char>| strip_return(l);
    assert(s@.take(0) =~= Seq::empty());
    assert(pieces(s@.take(0)).drop_last().map_values(strip) =~= lines_view(done@));
    for i in 0..s.len()
        invariant
            strip == (|l: Seq<char>| strip_return(l)),
            pieces(s@.take(i as int)).len() > 0,
            pieces(s@.take(i as int)).last() == line@,
            pieces(s@.take(i as int)).drop_last().map_values(strip) == lines_view(done@),
    {
        let c = s[i];
        let ghost had = lines_view(done@);
        let ghost before = pieces(s@.take(i as int));
        let ghost now = pieces(s@.take(i + 1));
        proof {
            assert(s@.take(i + 1).drop_last() =~= s@.take(i as int));
            assert(s@.take(i + 1).last() == c);
        }
        if c == '\n' {
            let ghost was = line@;
            if line.len() > 0 && line[line.len() - 1] == '\r' {
                let _ = line.pop();
                assert(line@ =~= was.drop_last());
            }
            let ghost kept = line@;
            done.push(line);
            line = Vec::new();
            proof {
                assert(kept == strip_return(was));
                assert(now.drop_last() =~= before);
                assert(before =~= before.drop_last().push(was));
                assert(before.map_values(strip) =~= before.drop_last().map_values(strip).push(
                    strip_return(was),
                ));
                assert(lines_view(done@) =~= had.push(kept));
                assert(line@ =~= Seq::empty());
            }
        } else {
            line.push(c);
            assert(now.drop_last() =~= before.drop_last());
        }
    }
    assert(s@.take(s@.len() as int) =~= s@);
    if line.len() > 0 {
        let ghost had = lines_view(done@);
        let ghost last = line@;
        done.push(line);
        assert(lines_view(done@) =~= had.push(last));
    }
    done
}

/// A text cut in two at the first `c`, which is dropped.
pub open spec fn cut_at(s: Seq<char>, c: char) -> Option<(Seq<char>, Seq<char>)>
    decreases s.len(),
{
    if s.len() == 0 {
        None
    } else if s[0] == c {
        Some((Seq::empty(), s.drop_first()))
    } else {
        match cut_at(s.drop_first(), c) {
            Some((a, b)) => Some((seq![s[0]] + a, b)),
            None => None,
        }
    }
}

/// A text cut in two at the first `c`, which is dropped.
pub(crate) fn cut(s: &[char], c: char) -> (r: Option<(Vec<char>, Vec<char>)>)
    ensures
        r is Some == cut_at(s@, c) is Some,
        r is Some ==> (r->0).0@ == (cut_at(s@, c)->0).0 && (r->0).1@ == (cut_at(s@, c)->0).1,
{
    assert(s@.skip(0) =~= s@);
    for i in 0..s.len()
        invariant
            cut_at(s@, c) is Some == cut_at(s@.skip(i as int), c) is Some,
            cut_at(s@, c) is Some ==> (cut_at(s@, c)->0).0 == s@.take(i as int) + (cut_at(
                s@.skip(i as int),
                c,
            )->0).0 && (cut_at(s@, c)->0).1 == (cut_at(s@.skip(i as int), c)->0).1,
    {
        let ghost rest = s@.skip(i as int);
        assert(rest[0] == s@[i as int]);
        assert(rest.drop_first() =~= s@.skip(i + 1));
        if s[i] == c {
            let a = vstd::slice::slice_to_vec(vstd::slice::slice_subrange(s, 0, i));
            let b = vstd::slice::slice_to_vec(vstd::slice::slice_subrange(s, i + 1, s.len()));
            assert(a@ =~= s@.take(i as int) + Seq::<char>::empty());
            assert(b@ =~= s@.skip(i + 1));
            return Some((a, b));
        }
        proof {
            if cut_at(rest, c) is Some {
                let tail = (cut_at(s@.skip(i + 1), c)->0).0;
                assert(s@.take(i as int) + (seq![s@[i as int]] + tail) =~= s@.take(i + 1) + tail);
            }
        }
    }
    assert(s@.skip(s@.len() as int) =~= Seq::empty());
    None
}

// --- numbers ------------------------------------------------------------------

/// Every character is a decimal digit.
pub open spec fn all_digits(s: Seq<char>) -> bool {
    forall|i: int| 0 <= i < s.len() ==> '0' <= #[trigger] s[i] <= '9'
}

/// The number that decimal digits write.
pub open spec fn digits_value(s: Seq<char>) -> nat
    decreases s.len(),
{
    if s.len() == 0 {
        0
    } else {
        digits_value(s.drop_last()) * 10 + (s.last() as int - '0' as int) as nat
    }
}

/// A number without the plus sign before it.
pub open spec fn strip_plus(s: Seq<char>) -> Seq<char> {
    if s.len() > 0 && s[0] == '+' {
        s.drop_first()
    } else {
        s
    }
}

/// The number that a text writes: one or more decimal digits, which a plus sign
/// may precede.
pub open spec fn number(s: Seq<char>) -> Option<nat> {
    let d = strip_plus(s);
    if d.len() > 0 && all_digits(d) {
        Some(digits_value(d))
    } else {
        None
    }
}

/// The number that a text writes, if it is not greater than `max`.
pub open spec fn number_upto(s: Seq<char>, max: u64) -> Option<u64> {
    match number(s) {
        Some(n) => if n <= max {
            Some(n as u64)
        } else {
            None
        },
        None => None,
    }
}

proof fn lemma_digits_grow(s: Seq<char>, n: int)
    requires
        0 <= n <= s.len(),
    ensures
        digits_value(s.take(n)) <= digits_value(s),
    decreases s.len(),
{
    if n == s.len() {
        assert(s.take(n) =~= s);
    } else {
        lemma_digits_grow(s.drop_last(), n);
        assert(s.drop_last().take(n) =~= s.take(n));
    }
}

/// The number that a text writes, if it is not greater than `max`.
pub fn parse_number(text: &str, max: u64) -> (r: Option<u64>)
    ensures
        r == number_upto(text@, max),
{
    let s = chars_of(text);
    let from: usize = if s.len() > 0 && s[0] == '+' {
        1
    } else {
        0
    };
    let ghost d = strip_plus(s@);
    assert(d =~= s@.skip(from as int));
    if s.len() == from {
        return None;
    }
    let mut n: u64 = 0;
    assert(d.take(0) =~= Seq::empty());
    for i in from..s.len()
        invariant
            from <= i,
            s@ == text@,
            d == strip_plus(s@),
            d == s@.skip(from as int),
            d.len() > 0,
            n == digits_value(d.take(i - from)),
            n <= max,
            all_digits(d.take(i - from)),
    {
        let c = s[i];
        let ghost k = i - from;
        assert(d[k] == c);
        if c < '0' || c > '9' {
            assert(!all_digits(d));
            return None;
        }
        let digit = (c as u32 - '0' as u32) as u64;
        assert(d.take(k + 1).drop_last() =~= d.take(k));
        assert(d.take(k + 1).last() == c);
        assert(digits_value(d.take(k + 1)) == n * 10 + digit);
        proof {
            lemma_digits_grow(d, k + 1);
        }
        if digit > max || n > (max - digit) / 10 {
            return None;
        }
        n = n * 10 + digit;
    }
    assert(d.take(d.len() as int) =~= d);
    Some(n)
}

/// A number that was written in decimal is read back.
pub proof fn law_number_roundtrip(n: nat)
    ensures
        number(decimal(n)) == Some(n),
{
    lemma_decimal(n);
    assert(strip_plus(decimal(n)) == decimal(n));
}

proof fn lemma_decimal(n: nat)
    ensures
        decimal(n).len() > 0,
        all_digits(decimal(n)),
        digits_value(decimal(n)) == n,
    decreases n,
{
    if n >= 10 {
        lemma_decimal(n / 10);
        assert(decimal(n).drop_last() =~= decimal(n / 10));
        assert(decimal(n).last() as int - '0' as int == n % 10);
    } else {
        assert(decimal(n).drop_last() =~= Seq::empty());
        assert(digits_value(Seq::<char>::empty()) == 0);
        assert(decimal(n).last() as int - '0' as int == n);
    }
}

/// A word holds no white space, and is not empty.
pub proof fn law_words_are_solid(s: Seq<char>, i: int, k: int)
    requires
        0 <= i < words_of(s).len(),
    ensures
        words_of(s)[i].len() > 0,
        0 <= k < words_of(s)[i].len() ==> !white_space(words_of(s)[i][k]),
    decreases s.len(),
{
    let prev = s.drop_last();
    let before = words_of(prev);
    if !white_space(s.last()) && s.len() >= 2 && !white_space(s[s.len() - 2]) {
        lemma_last_word(prev);
        if i == before.len() - 1 && k < before.last().len() {
            law_words_are_solid(prev, i, k);
        } else if i < before.len() - 1 {
            law_words_are_solid(prev, i, k);
        }
    } else if i < before.len() {
        law_words_are_solid(prev, i, k);
    }
}

proof fn lemma_last_word(s: Seq<char>)
    requires
        s.len() > 0,
        !white_space(s.last()),
    ensures
        words_of(s).len() > 0,
    decreases s.len(),
{
    if s.len() >= 2 && !white_space(s[s.len() - 2]) {
        assert(s.drop_last().last() == s[s.len() - 2]);
        lemma_last_word(s.drop_last());
    }
}

} // verus!

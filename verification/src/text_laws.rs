//! What taking text apart and writing numbers means, in terms of how texts are
//! put together.

use vstd::prelude::*;

use crate::digest::md5_digest;
use crate::text::{
    comma_list, debug_list, debug_option, debug_text, debug_u32, decimal, hex, hex2, hex4, str_debug,
};
use crate::words::{
    all_digits, cut_at, digits_value, joined, lines_of, number, number_upto, pieces, strip_return,
    trim_end, trim_start, trimmed, white_space, words_of,
};

verus! {

// --- numbers in text ------------------------------------------------------------

/// The number that a hexadecimal digit in lower case stands for.
pub open spec fn hex_value(c: char) -> int {
    if '0' <= c <= '9' {
        c as int - 48
    } else if 'a' <= c <= 'f' {
        c as int - 87
    } else {
        -1
    }
}

/// The hexadecimal form of octets is read back two digits at a time, the high
/// one first.
pub proof fn law_hex_is_read_back(bytes: Seq<u8>, i: int)
    requires
        0 <= i < bytes.len(),
    ensures
        hex(bytes).len() == 2 * bytes.len(),
        hex_value(hex(bytes)[2 * i]) * 16 + hex_value(hex(bytes)[2 * i + 1]) == bytes[i],
        hex_value(hex(bytes)[2 * i]) >= 0 && hex_value(hex(bytes)[2 * i + 1]) >= 0,
    decreases bytes.len(),
{
    crate::text::law_hex_alphabet(bytes.drop_last());
    let h = hex(bytes.drop_last());
    if i < bytes.len() - 1 {
        law_hex_is_read_back(bytes.drop_last(), i);
        assert(hex(bytes)[2 * i] == h[2 * i]);
        assert(hex(bytes)[2 * i + 1] == h[2 * i + 1]);
    } else {
        assert(hex(bytes)[2 * i] == hex2(bytes.last())[0]);
        assert(hex(bytes)[2 * i + 1] == hex2(bytes.last())[1]);
    }
}

/// One octet has two digits, a 16-bit number four, the high ones first.
pub proof fn law_short_hex(b: u8, v: u16)
    ensures
        hex2(b).len() == 2,
        hex_value(hex2(b)[0]) * 16 + hex_value(hex2(b)[1]) == b,
        hex4(v).len() == 4,
        hex_value(hex4(v)[0]) * 0x1000 + hex_value(hex4(v)[1]) * 0x100 + hex_value(hex4(v)[2]) * 0x10
            + hex_value(hex4(v)[3]) == v,
        hex_value(hex4(v)[0]) >= 0 && hex_value(hex4(v)[1]) >= 0,
        hex_value(hex4(v)[2]) >= 0 && hex_value(hex4(v)[3]) >= 0,
{
    let a = (v / 256) as u8;
    let c = (v % 256) as u8;
    assert(hex4(v)[0] == hex2(a)[0] && hex4(v)[1] == hex2(a)[1]);
    assert(hex4(v)[2] == hex2(c)[0] && hex4(v)[3] == hex2(c)[1]);
    assert(hex_value(hex2(a)[0]) * 16 + hex_value(hex2(a)[1]) == a);
    assert(hex_value(hex2(c)[0]) * 16 + hex_value(hex2(c)[1]) == c);
}

/// A number in decimal ends in its last digit, behind the digits of its tenth
/// part, and has no zeros before it.
pub proof fn law_decimal_digits(n: nat)
    ensures
        n < 10 ==> decimal(n).len() == 1 && decimal(n)[0] as int == 48 + n,
        n >= 10 ==> decimal(n).drop_last() == decimal(n / 10) && decimal(n).last() as int == 48 + n
            % 10,
        decimal(n).len() > 0,
        n > 0 ==> decimal(n)[0] != '0',
    decreases n,
{
    if n >= 10 {
        law_decimal_digits(n / 10);
        assert(decimal(n).drop_last() =~= decimal(n / 10));
        assert(decimal(n)[0] == decimal(n / 10)[0]);
    }
}

/// Digits write a number one by one: each weighs a tenth of the one before it. A
/// plus sign before them changes nothing; anything else is no number.
pub proof fn law_number_is_read(s: Seq<char>, c: char, i: int)
    ensures
        number(Seq::empty()) is None,
        number(seq!['+']) is None,
        '0' <= c <= '9' ==> number(seq![c]) == Some((c as int - 48) as nat),
        '0' <= c <= '9' && s.len() > 0 && s[0] != '+' && number(s) is Some ==> number(s.push(c))
            == Some((number(s)->0 * 10 + (c as int - 48)) as nat),
        number(s) is Some && s[0] != '+' ==> number(seq!['+'] + s) == number(s),
        0 <= i < s.len() && !('0' <= s[i] <= '9') && !(i == 0 && s[0] == '+') ==> number(s) is None,
{
    let e = Seq::<char>::empty();
    assert(seq!['+'].drop_first() =~= e);
    assert(seq![c].drop_last() =~= e);
    assert(digits_value(e) == 0);
    if '0' <= c <= '9' {
        assert(all_digits(seq![c]));
        assert(digits_value(seq![c]) == c as int - 48);
        if s.len() > 0 && s[0] != '+' && number(s) is Some {
            let t = s.push(c);
            assert(t[0] == s[0]);
            assert(t.drop_last() =~= s);
            assert(all_digits(t)) by {
                assert forall|j: int| 0 <= j < t.len() implies '0' <= #[trigger] t[j] <= '9' by {
                    if j < s.len() {
                        assert(t[j] == s[j]);
                    }
                }
            }
        }
    }
    if number(s) is Some && s[0] != '+' {
        let t = seq!['+'] + s;
        assert(t[0] == '+');
        assert(t.drop_first() =~= s);
    }
    if 0 <= i < s.len() && !('0' <= s[i] <= '9') && !(i == 0 && s[0] == '+') {
        if s[0] == '+' {
            assert(s.drop_first()[i - 1] == s[i]);
        }
    }
}

/// A number that is too great is no number.
pub proof fn law_number_within_a_limit(s: Seq<char>, max: u64)
    ensures
        number_upto(s, max) is Some <==> number(s) is Some && number(s)->0 <= max,
        number_upto(s, max) is Some ==> number_upto(s, max)->0 == number(s)->0,
{
}

/// A list of octets is written in order, with a comma and a space between two.
pub proof fn law_list_of_octets(v: Seq<u8>, b: u8)
    ensures
        comma_list(Seq::<u8>::empty()).len() == 0,
        comma_list(seq![b]) == decimal(b as nat),
        v.len() > 0 ==> comma_list(v.push(b)) == comma_list(v) + ", "@ + decimal(b as nat),
{
    assert(v.push(b).drop_last() =~= v);
}

/// A value that may be missing is shown as `None`, or as the value in `Some(` and
/// `)`; a list is shown in brackets.
pub proof fn law_values_are_shown(a: u8, b: u32, s: Seq<char>, v: Seq<u8>)
    ensures
        ({
            let some = seq!['S', 'o', 'm', 'e', '('];
            let none = seq!['N', 'o', 'n', 'e'];
            &&& debug_option(None) == none && debug_u32(None) == none && debug_text(None) == none
            &&& debug_option(Some(a)) == (some + decimal(a as nat)).push(')')
            &&& debug_u32(Some(b)) == (some + decimal(b as nat)).push(')')
            &&& debug_text(Some(s)) == (some + str_debug(s)).push(')')
            &&& debug_list(v) == (seq!['['] + comma_list(v)).push(']')
        }),
{
    reveal_strlit("None");
    reveal_strlit("Some(");
    reveal_strlit(")");
    reveal_strlit("[");
    reveal_strlit("]");
    let some = seq!['S', 'o', 'm', 'e', '('];
    assert("None"@ =~= seq!['N', 'o', 'n', 'e']);
    assert("Some("@ =~= some);
    assert("["@ =~= seq!['[']);
    assert(debug_option(Some(a)) =~= (some + decimal(a as nat)).push(')'));
    assert(debug_u32(Some(b)) =~= (some + decimal(b as nat)).push(')'));
    assert(debug_text(Some(s)) =~= (some + str_debug(s)).push(')'));
    assert(debug_list(v) =~= (seq!['['] + comma_list(v)).push(']'));
}

/// The answer to a challenge depends on the challenge followed by the secret,
/// and on nothing else; it is the digest of their UTF-8, two digits an octet.
pub proof fn law_answer_to_a_challenge(
    challenge: Seq<char>,
    secret: Seq<char>,
    other: Seq<char>,
    rest: Seq<char>,
    i: int,
)
    ensures
        challenge + secret == other + rest ==> crate::md5_answer(challenge, secret)
            == crate::md5_answer(other, rest),
        ({
            let digest = md5_digest(vstd::utf8::encode_utf8(challenge + secret));
            let answer = crate::md5_answer(challenge, secret);
            &&& answer.len() == 2 * digest.len()
            &&& 0 <= i < digest.len() ==> hex_value(answer[2 * i]) * 16 + hex_value(
                answer[2 * i + 1],
            ) == digest[i]
        }),
{
    let digest = md5_digest(vstd::utf8::encode_utf8(challenge + secret));
    crate::text::law_hex_alphabet(digest);
    if 0 <= i < digest.len() {
        law_hex_is_read_back(digest, i);
    }
}

// --- words and lines --------------------------------------------------------------

/// The text holds white space nowhere.
pub open spec fn solid(s: Seq<char>) -> bool {
    forall|i: int| 0 <= i < s.len() ==> !white_space(#[trigger] s[i])
}

/// White space parts a text: its words are those before it and those behind it.
/// A text without white space is one word, or none if it is empty.
pub proof fn law_white_space_parts_words(a: Seq<char>, c: char, b: Seq<char>)
    requires
        white_space(c),
    ensures
        words_of(a.push(c) + b) == words_of(a) + words_of(b),
        solid(a) && a.len() > 0 ==> words_of(a) == seq![a],
        words_of(Seq::empty()).len() == 0,
    decreases a.len() + b.len(),
{
    if solid(a) && a.len() > 0 {
        lemma_one_word(a);
    }
    let t = a.push(c) + b;
    if b.len() == 0 {
        assert(t =~= a.push(c));
        assert(t.drop_last() =~= a);
        assert(words_of(a) + words_of(b) =~= words_of(a));
    } else {
        let b1 = b.drop_last();
        assert(t.drop_last() =~= a.push(c) + b1);
        law_white_space_parts_words(a, c, b1);
        let before = words_of(a) + words_of(b1);
        assert(t.last() == b.last());
        if white_space(b.last()) {
        } else if b.len() >= 2 && !white_space(b[b.len() - 2]) {
            assert(t[t.len() - 2] == b[b.len() - 2]);
            assert(b1.last() == b[b.len() - 2]);
            lemma_last_word(b1);
            assert(before.last() == words_of(b1).last());
            assert(before.drop_last() =~= words_of(a) + words_of(b1).drop_last());
            assert(before.drop_last().push(before.last().push(b.last())) =~= words_of(a)
                + words_of(b1).drop_last().push(words_of(b1).last().push(b.last())));
        } else {
            if b.len() >= 2 {
                assert(t[t.len() - 2] == b[b.len() - 2]);
            } else {
                assert(t[t.len() - 2] == c);
            }
            assert(before.push(seq![b.last()]) =~= words_of(a) + words_of(b1).push(
                seq![b.last()],
            ));
        }
    }
}

proof fn lemma_last_word(s: Seq<char>)
    requires
        s.len() > 0,
        !white_space(s.last()),
    ensures
        words_of(s).len() > 0,
    decreases s.len(),
{
    if s.len() >= 2 && !white_space(s[s.len() - 2]) {
        assert(s.drop_last().last() == s[s.len() - 2]);
        lemma_last_word(s.drop_last());
    }
}

proof fn lemma_one_word(s: Seq<char>)
    requires
        solid(s),
        s.len() > 0,
    ensures
        words_of(s) == seq![s],
    decreases s.len(),
{
    assert(!white_space(s[s.len() - 1]));
    let before = s.drop_last();
    if before.len() > 0 {
        assert forall|i: int| 0 <= i < before.len() implies !white_space(#[trigger] before[i]) by {
            assert(before[i] == s[i]);
        }
        lemma_one_word(before);
        assert(!white_space(s[s.len() - 2]));
        assert(words_of(s) =~= seq![before.push(s.last())]);
        assert(before.push(s.last()) =~= s);
    } else {
        assert(words_of(before) =~= Seq::empty());
        assert(words_of(s) =~= seq![seq![s.last()]]);
        assert(seq![s.last()] =~= s);
    }
}

/// Trimming takes the white space off both ends, and nothing else.
pub proof fn law_trimming(s: Seq<char>) -> (r: (int, int))
    ensures
        0 <= r.0 <= r.1 <= s.len(),
        trimmed(s) == s.subrange(r.0, r.1),
        forall|i: int| 0 <= i < r.0 ==> white_space(#[trigger] s[i]),
        forall|i: int| r.1 <= i < s.len() ==> white_space(#[trigger] s[i]),
        trimmed(s).len() > 0 ==> !white_space(trimmed(s)[0]) && !white_space(trimmed(s).last()),
{
    let a = lemma_trim_start(s);
    let t = trim_start(s);
    let n = lemma_trim_end(t);
    assert(trimmed(s) =~= s.subrange(a, a + n));
    assert forall|i: int| a + n <= i < s.len() implies white_space(#[trigger] s[i]) by {
        assert(t[i - a] == s[i]);
    }
    (a, a + n)
}

proof fn lemma_trim_start(s: Seq<char>) -> (a: int)
    ensures
        0 <= a <= s.len(),
        trim_start(s) == s.skip(a),
        forall|i: int| 0 <= i < a ==> white_space(#[trigger] s[i]),
        a < s.len() ==> !white_space(s[a]),
    decreases s.len(),
{
    if s.len() > 0 && white_space(s[0]) {
        let a = lemma_trim_start(s.drop_first());
        assert(s.drop_first().skip(a) =~= s.skip(a + 1));
        assert forall|i: int| 0 <= i < a + 1 implies white_space(#[trigger] s[i]) by {
            if i > 0 {
                assert(s.drop_first()[i - 1] == s[i]);
            }
        }
        if a + 1 < s.len() {
            assert(s.drop_first()[a] == s[a + 1]);
        }
        a + 1
    } else {
        assert(s.skip(0) =~= s);
        0
    }
}

proof fn lemma_trim_end(s: Seq<char>) -> (n: int)
    ensures
        0 <= n <= s.len(),
        trim_end(s) == s.take(n),
        forall|i: int| n <= i < s.len() ==> white_space(#[trigger] s[i]),
        n > 0 ==> !white_space(s[n - 1]),
    decreases s.len(),
{
    if s.len() > 0 && white_space(s.last()) {
        let n = lemma_trim_end(s.drop_last());
        assert(s.drop_last().take(n) =~= s.take(n));
        assert forall|i: int| n <= i < s.len() implies white_space(#[trigger] s[i]) by {
            if i < s.len() - 1 {
                assert(s.drop_last()[i] == s[i]);
            }
        }
        if n > 0 {
            assert(s.drop_last()[n - 1] == s[n - 1]);
        }
        n
    } else {
        assert(s.take(s.len() as int) =~= s);
        s.len() as int
    }
}

/// Joining puts the texts behind each other, in order, with the one between
/// them.
pub proof fn law_joining(list: Seq<Seq<char>>, x: Seq<char>, between: Seq<char>)
    ensures
        joined(Seq::empty(), between).len() == 0,
        joined(seq![x], between) == x,
        list.len() > 0 ==> joined(list.push(x), between) == joined(list, between) + between + x,
{
    assert(list.push(x).drop_last() =~= list);
}

/// A text is cut at the first of its characters that is `c`: what is before it
/// does not hold it, and what is behind it is the rest.
pub proof fn law_cutting(s: Seq<char>, c: char)
    ensures
        cut_at(s, c) is None <==> !s.contains(c),
        cut_at(s, c) is Some ==> s == (cut_at(s, c)->0).0.push(c) + (cut_at(s, c)->0).1 && !(cut_at(
            s,
            c,
        )->0).0.contains(c),
    decreases s.len(),
{
    if s.len() > 0 {
        let rest = s.drop_first();
        if s[0] == c {
            assert(s.contains(c));
            assert(s =~= Seq::<char>::empty().push(c) + rest);
        } else {
            law_cutting(rest, c);
            if s.contains(c) {
                let i = choose|i: int| 0 <= i < s.len() && s[i] == c;
                assert(rest[i - 1] == c);
            }
            if rest.contains(c) {
                let i = choose|i: int| 0 <= i < rest.len() && rest[i] == c;
                assert(s[i + 1] == c);
            }
            if cut_at(rest, c) is Some {
                let (a, b) = cut_at(rest, c)->0;
                assert(s =~= seq![s[0]] + rest);
                assert(rest =~= a.push(c) + b);
                assert((seq![s[0]] + a).push(c) + b =~= seq![s[0]] + (a.push(c) + b));
                let whole = seq![s[0]] + a;
                if whole.contains(c) {
                    let i = choose|i: int| 0 <= i < whole.len() && whole[i] == c;
                    assert(a[i - 1] == c);
                }
            }
        }
    }
}

/// A line feed ends a line: the line before it, without a carriage return at its
/// end, comes first, and then the lines behind it. A text without one is one
/// line as it is, or none if it is empty.
pub proof fn law_line_feeds_end_lines(a: Seq<char>, b: Seq<char>)
    requires
        !a.contains('\n'),
    ensures
        lines_of(a.push('\n') + b) == seq![
            if a.len() > 0 && a.last() == '\r' {
                a.drop_last()
            } else {
                a
            },
        ] + lines_of(b),
        a.len() > 0 ==> lines_of(a) == seq![a],
        lines_of(Seq::empty()).len() == 0,
{
    let strip = |l: Seq<char>| strip_return(l);
    lemma_one_piece(a);
    lemma_one_piece(Seq::empty());
    lemma_pieces(a, b);
    let all = pieces(a.push('\n') + b);
    let rest = pieces(b);
    lemma_some_piece(b);
    assert(all =~= seq![a] + rest);
    assert(all.drop_last() =~= seq![a] + rest.drop_last());
    assert(all.last() == rest.last());
    assert((seq![a] + rest.drop_last()).map_values(strip) =~= seq![strip_return(a)]
        + rest.drop_last().map_values(strip));
    assert(lines_of(a.push('\n') + b) =~= seq![strip_return(a)] + lines_of(b));
    assert(pieces(a).drop_last().map_values(strip) =~= Seq::<Seq<char>>::empty());
    if a.len() > 0 {
        assert(lines_of(a) =~= seq![a]);
    }
    let e = Seq::<char>::empty();
    assert(pieces(e).drop_last().map_values(strip) =~= Seq::<Seq<char>>::empty());
}

proof fn lemma_some_piece(s: Seq<char>)
    ensures
        pieces(s).len() > 0,
    decreases s.len(),
{
    if s.len() > 0 {
        lemma_some_piece(s.drop_last());
    }
}

proof fn lemma_one_piece(s: Seq<char>)
    requires
        !s.contains('\n'),
    ensures
        pieces(s) == seq![s],
    decreases s.len(),
{
    if s.len() > 0 {
        let before = s.drop_last();
        if before.contains('\n') {
            let i = choose|i: int| 0 <= i < before.len() && before[i] == '\n';
            assert(s[i] == '\n');
        }
        assert(s[s.len() - 1] != '\n') by {
            if s[s.len() - 1] == '\n' {
                assert(s.contains('\n'));
            }
        }
        lemma_one_piece(before);
        assert(before.push(s.last()) =~= s);
        assert(pieces(s) =~= seq![s]);
    } else {
        assert(s =~= Seq::empty());
    }
}

proof fn lemma_pieces(a: Seq<char>, b: Seq<char>)
    requires
        !a.contains('\n'),
    ensures
        pieces(a.push('\n') + b) == seq![a] + pieces(b),
    decreases b.len(),
{
    let t = a.push('\n') + b;
    if b.len() == 0 {
        lemma_one_piece(a);
        assert(t =~= a.push('\n'));
        assert(t.drop_last() =~= a);
        assert(pieces(t) =~= seq![a, Seq::empty()]);
        assert(seq![a] + pieces(b) =~= seq![a, Seq::empty()]);
    } else {
        let b1 = b.drop_last();
        lemma_pieces(a, b1);
        lemma_some_piece(b1);
        assert(t.drop_last() =~= a.push('\n') + b1);
        assert(t.last() == b.last());
        let before = seq![a] + pieces(b1);
        assert(before.last() == pieces(b1).last());
        assert(before.drop_last() =~= seq![a] + pieces(b1).drop_last());
        assert(pieces(t) =~= seq![a] + pieces(b));
    }
}

} // verus!

//! Text helpers: decimal and hexadecimal numerals, prefix and suffix tests,
//! splitting on white space, and joining lists.
//!
//! Every function here states its result over the sequence of characters of
//! its arguments, so that the messages built elsewhere in the crate have exact
//! contracts.

use vstd::prelude::*;
use vstd::string::*;

verus! {

/// `String::push` appends one character at the end of the string.
pub assume_specification[ String::push ](s: &mut String, c: char)
    ensures
        final(s)@ == old(s)@.push(c),
;

/// What `String::from_utf8_lossy` makes of a sequence of bytes.
pub uninterp spec fn lossy_text(bytes: Seq<u8>) -> Seq<char>;

/// `String::from_utf8_lossy` reads bytes as UTF-8 and puts U+FFFD where they
/// are not valid. The result depends on the bytes alone, and valid UTF-8 is
/// decoded unchanged.
#[verifier::external_body]
pub(crate) fn utf8_lossy(bytes: &[u8]) -> (res: String)
    ensures
        res@ == lossy_text(bytes@),
        vstd::utf8::valid_utf8(bytes@) ==> res@ == vstd::utf8::decode_utf8(bytes@),
{
    String::from_utf8_lossy(bytes).into_owned()
}

/// The characters of `s`, in order.
pub fn chars_of(s: &str) -> (res: Vec<char>)
    ensures
        res@ == s@,
{
    let mut out: Vec<char> = Vec::new();
    for c in it: s.chars()
        invariant
            it.seq() == s@,
            out@ == it.seq().take(it.index() as int),
    {
        out.push(c);
    }
    out
}

/// The string made of the characters `v[from..to]`.
pub fn string_of(v: &Vec<char>, from: usize, to: usize) -> (res: String)
    requires
        from <= to <= v@.len(),
    ensures
        res@ == v@.subrange(from as int, to as int),
{
    let mut s = String::new();
    let mut i: usize = from;
    while i < to
        invariant
            from <= i <= to <= v@.len(),
            s@ == v@.subrange(from as int, i as int),
        decreases to - i,
    {
        s.push(v[i]);
        i = i + 1;
    }
    s
}

/// Whether two strings hold the same characters.
pub fn same_text(a: &str, b: &str) -> (res: bool)
    ensures
        res == (a@ == b@),
{
    a.to_owned() == b.to_owned()
}

/// The decimal digit with value `d`.
pub open spec fn digit(d: nat) -> char {
    (48 + d) as char
}

/// The decimal numeral of `n`, without leading zeros.
pub open spec fn decimal(n: nat) -> Seq<char>
    decreases n,
{
    if n < 10 {
        seq![digit(n)]
    } else {
        decimal(n / 10).push(digit(n % 10))
    }
}

/// The decimal numeral of `n`.
pub fn decimal_text(n: u128) -> (res: String)
    ensures
        res@ == decimal(n as nat),
    decreases n,
{
    let last = (48u8 + (n % 10) as u8) as char;
    let mut s = if n < 10 {
        String::new()
    } else {
        decimal_text(n / 10)
    };
    s.push(last);
    assert(n < 10 ==> s@ =~= decimal(n as nat));
    s
}

/// The numerals of `ids` with `sep` between neighbours.
pub open spec fn id_list(ids: Seq<u64>, sep: Seq<char>) -> Seq<char>
    decreases ids.len(),
{
    if ids.len() == 0 {
        Seq::empty()
    } else if ids.len() == 1 {
        decimal(ids[0] as nat)
    } else {
        id_list(ids.drop_last(), sep) + sep + decimal(ids.last() as nat)
    }
}

/// The numerals of `ids` with `sep` between neighbours.
pub fn id_list_text(ids: &Vec<u64>, sep: &str) -> (res: String)
    ensures
        res@ == id_list(ids@, sep@),
{
    let mut s = String::new();
    let mut i: usize = 0;
    while i < ids.len()
        invariant
            i <= ids@.len(),
            s@ == id_list(ids@.take(i as int), sep@),
        decreases ids@.len() - i,
    {
        let numeral = decimal_text(ids[i] as u128);
        if i > 0 {
            s.append(sep);
        }
        s.append(numeral.as_str());
        assert(ids@.take(i + 1).drop_last() =~= ids@.take(i as int));
        assert(i == 0 ==> s@ =~= numeral@);
        i = i + 1;
    }
    assert(ids@.take(ids@.len() as int) =~= ids@);
    s
}

/// The ids in brackets, separated by a comma and a space: `[1, 2]`.
pub open spec fn bracketed_ids(ids: Seq<u64>) -> Seq<char> {
    "["@ + id_list(ids, ", "@) + "]"@
}

/// The ids in brackets, separated by a comma and a space.
pub fn bracketed_ids_text(ids: &Vec<u64>) -> (res: String)
    ensures
        res@ == bracketed_ids(ids@),
{
    let inner = id_list_text(ids, ", ");
    let mut s = "[".to_owned();
    s.append(inner.as_str());
    s.append("]");
    s
}

/// The lower-case hexadecimal digit with value `d`.
pub open spec fn hex_digit(d: nat) -> char {
    if d < 10 {
        (48 + d) as char
    } else {
        (87 + d) as char
    }
}

/// Two lower-case hexadecimal digits per byte, most significant first.
pub open spec fn hex(bytes: Seq<u8>) -> Seq<char>
    decreases bytes.len(),
{
    if bytes.len() == 0 {
        Seq::empty()
    } else {
        hex(bytes.drop_last()).push(hex_digit((bytes.last() / 16) as nat)).push(
            hex_digit((bytes.last() % 16) as nat),
        )
    }
}

fn hex_digit_char(d: u8) -> (res: char)
    requires
        d < 16,
    ensures
        res == hex_digit(d as nat),
{
    if d < 10 {
        (48 + d) as char
    } else {
        (87 + d) as char
    }
}

/// Lower-case hexadecimal form of `bytes`.
pub fn hex_encode(bytes: &[u8]) -> (res: String)
    ensures
        res@ == hex(bytes@),
{
    let mut s = String::new();
    let mut i: usize = 0;
    while i < bytes.len()
        invariant
            i <= bytes@.len(),
            s@ == hex(bytes@.take(i as int)),
        decreases bytes@.len() - i,
    {
        s.push(hex_digit_char(bytes[i] / 16));
        s.push(hex_digit_char(bytes[i] % 16));
        assert(bytes@.take(i + 1).drop_last() =~= bytes@.take(i as int));
        i = i + 1;
    }
    assert(bytes@.take(bytes@.len() as int) =~= bytes@);
    s
}

/// Whether `s` begins with `prefix`.
pub fn starts_with(s: &str, prefix: &str) -> (res: bool)
    ensures
        res == prefix@.is_prefix_of(s@),
{
    let a = chars_of(s);
    let b = chars_of(prefix);
    if b.len() > a.len() {
        return false;
    }
    let mut i: usize = 0;
    while i < b.len()
        invariant
            a@ == s@,
            b@ == prefix@,
            i <= b@.len() <= a@.len(),
            forall|k: int| 0 <= k < i ==> a@[k] == b@[k],
        decreases b@.len() - i,
    {
        if a[i] != b[i] {
            assert(a@.subrange(0, b@.len() as int)[i as int] != b@[i as int]);
            return false;
        }
        i = i + 1;
    }
    assert(b@ =~= a@.subrange(0, b@.len() as int));
    true
}

/// `s` without `suffix` at its end, or `None` where it does not end in it.
pub open spec fn without_suffix(s: Seq<char>, suffix: Seq<char>) -> Option<Seq<char>> {
    if suffix.is_suffix_of(s) {
        Some(s.take(s.len() - suffix.len()))
    } else {
        None
    }
}

/// `s` without `suffix` at its end, or `None` where it does not end in it.
pub fn strip_suffix(s: &str, suffix: &str) -> (res: Option<String>)
    ensures
        res is Some <==> without_suffix(s@, suffix@) is Some,
        res matches Some(rest) ==> Some(rest@) == without_suffix(s@, suffix@),
{
    let a = chars_of(s);
    let b = chars_of(suffix);
    if b.len() > a.len() {
        return None;
    }
    let skip: usize = a.len() - b.len();
    let mut i: usize = 0;
    while i < b.len()
        invariant
            a@ == s@,
            b@ == suffix@,
            i <= b.len(),
            skip + b.len() == a.len(),
            forall|k: int| 0 <= k < i ==> a@[skip + k] == b@[k],
        decreases b@.len() - i,
    {
        if a[skip + i] != b[i] {
            assert(a@.subrange(skip as int, a@.len() as int)[i as int] != b@[i as int]);
            return None;
        }
        i = i + 1;
    }
    assert(b@ =~= a@.subrange(skip as int, a@.len() as int));
    assert(a@.subrange(0, skip as int) =~= a@.take(skip as int));
    Some(string_of(&a, 0, skip))
}

/// `s` with every trailing copy of `suffix` removed.
pub open spec fn trimmed_end(s: Seq<char>, suffix: Seq<char>) -> Seq<char>
    decreases s.len(),
{
    if suffix.len() > 0 && suffix.is_suffix_of(s) {
        trimmed_end(s.take(s.len() - suffix.len()), suffix)
    } else {
        s
    }
}

/// `s` with every trailing copy of `suffix` removed.
pub fn trim_end_matches(s: &str, suffix: &str) -> (res: String)
    requires
        suffix@.len() > 0,
    ensures
        res@ == trimmed_end(s@, suffix@),
{
    let mut rest = s.to_owned();
    loop
        invariant
            suffix@.len() > 0,
            trimmed_end(s@, suffix@) == trimmed_end(rest@, suffix@),
        decreases rest@.len(),
    {
        match strip_suffix(rest.as_str(), suffix) {
            Some(shorter) => {
                rest = shorter;
            },
            None => {
                return rest;
            },
        }
    }
}

/// The characters with the Unicode property White_Space.
pub open spec fn is_white(c: char) -> bool {
    ||| 0x09 <= c as u32 <= 0x0d
    ||| c as u32 == 0x20
    ||| c as u32 == 0x85
    ||| c as u32 == 0xa0
    ||| c as u32 == 0x1680
    ||| 0x2000 <= c as u32 <= 0x200a
    ||| c as u32 == 0x2028
    ||| c as u32 == 0x2029
    ||| c as u32 == 0x202f
    ||| c as u32 == 0x205f
    ||| c as u32 == 0x3000
}

/// Whether `c` is white space.
pub fn is_whitespace(c: char) -> (res: bool)
    ensures
        res == is_white(c),
{
    let n = c as u32;
    (0x09 <= n && n <= 0x0d) || n == 0x20 || n == 0x85 || n == 0xa0 || n == 0x1680 || (0x2000 <= n
        && n <= 0x200a) || n == 0x2028 || n == 0x2029 || n == 0x202f || n == 0x205f || n == 0x3000
}

/// The length of the longest run of non-white characters at the start of `s`.
pub open spec fn word_len(s: Seq<char>) -> nat
    decreases s.len(),
{
    if s.len() == 0 || is_white(s[0]) {
        0
    } else {
        1 + word_len(s.drop_first())
    }
}

pub proof fn lemma_word_len_bound(s: Seq<char>)
    ensures
        word_len(s) <= s.len(),
        s.len() > 0 && !is_white(s[0]) ==> word_len(s) > 0,
    decreases s.len(),
{
    if s.len() > 0 {
        lemma_word_len_bound(s.drop_first());
    }
}

/// The words of `s`: its maximal runs of characters that are not white space.
pub open spec fn words(s: Seq<char>) -> Seq<Seq<char>>
    decreases s.len(),
{
    if s.len() == 0 {
        Seq::empty()
    } else if is_white(s[0]) {
        words(s.drop_first())
    } else {
        proof {
            lemma_word_len_bound(s);
        }
        seq![s.take(word_len(s) as int)] + words(s.skip(word_len(s) as int))
    }
}

/// The views of the strings in `v`.
pub open spec fn texts(v: Seq<String>) -> Seq<Seq<char>> {
    Seq::new(v.len(), |i: int| v[i]@)
}

/// The words of `s`, in order.
pub fn split_whitespace(s: &str) -> (res: Vec<String>)
    ensures
        texts(res@) == words(s@),
{
    let a = chars_of(s);
    let mut out: Vec<String> = Vec::new();
    let mut i: usize = 0;
    assert(a@.skip(0) =~= a@);
    while i < a.len()
        invariant
            i <= a@.len(),
            words(a@) == texts(out@) + words(a@.skip(i as int)),
        decreases a@.len() - i,
    {
        let ghost rest = a@.skip(i as int);
        assert(rest[0] == a@[i as int]);
        if is_whitespace(a[i]) {
            assert(rest.drop_first() =~= a@.skip(i + 1));
            i = i + 1;
        } else {
            let start: usize = i;
            while i < a.len() && !is_whitespace(a[i])
                invariant
                    start <= i <= a@.len(),
                    rest == a@.skip(start as int),
                    word_len(rest) == (i - start) + word_len(a@.skip(i as int)),
                decreases a@.len() - i,
            {
                assert(a@.skip(i as int).drop_first() =~= a@.skip(i + 1));
                i = i + 1;
            }
            proof {
                lemma_word_len_bound(rest);
                lemma_word_len_bound(a@.skip(i as int));
            }
            let word = string_of(&a, start, i);
            let ghost before = texts(out@);
            out.push(word);
            assert(rest.take(i - start) =~= word@);
            assert(rest.skip(i - start) =~= a@.skip(i as int));
            assert(texts(out@) =~= before + seq![word@]);
            assert(words(rest) == seq![word@] + words(a@.skip(i as int)));
            assert(before + (seq![word@] + words(a@.skip(i as int))) =~= texts(out@) + words(
                a@.skip(i as int),
            ));
        }
    }
    assert(a@.skip(a@.len() as int) =~= Seq::<char>::empty());
    assert(texts(out@) + Seq::<Seq<char>>::empty() =~= texts(out@));
    out
}

/// The pieces of `s` between occurrences of `sep`. There is always at least
/// one, and there is one more than there are separators.
pub open spec fn pieces<T>(s: Seq<T>, sep: T) -> Seq<Seq<T>>
    decreases s.len(),
{
    if s.len() == 0 {
        seq![Seq::empty()]
    } else {
        let front = pieces(s.drop_last(), sep);
        if s.last() == sep {
            front.push(Seq::empty())
        } else {
            front.update(front.len() - 1, front.last().push(s.last()))
        }
    }
}

/// There is at least one piece, and no piece holds the separator.
pub proof fn lemma_pieces<T>(s: Seq<T>, sep: T)
    ensures
        pieces(s, sep).len() > 0,
        forall|i: int|
            0 <= i < pieces(s, sep).len() ==> !(#[trigger] pieces(s, sep)[i]).contains(sep),
    decreases s.len(),
{
    if s.len() > 0 {
        let front = pieces(s.drop_last(), sep);
        lemma_pieces(s.drop_last(), sep);
        assert forall|i: int| 0 <= i < pieces(s, sep).len() implies !(#[trigger] pieces(
            s,
            sep,
        )[i]).contains(sep) by {
            let piece = pieces(s, sep)[i];
            if s.last() != sep && i == front.len() - 1 {
                assert forall|k: int| 0 <= k < piece.len() implies piece[k] != sep by {
                    if k < front.last().len() {
                        assert(front[i][k] == piece[k]);
                        assert(!front[i].contains(sep));
                    }
                }
            } else if i < front.len() {
                assert(piece == front[i]);
            }
        }
    }
}

/// What follows the last separator is the last piece.
pub proof fn lemma_last_piece<T>(front: Seq<T>, sep: T, last: Seq<T>)
    requires
        !last.contains(sep),
    ensures
        pieces(front.push(sep) + last, sep) == pieces(front, sep).push(last),
    decreases last.len(),
{
    let whole = front.push(sep) + last;
    if last.len() == 0 {
        assert(whole =~= front.push(sep));
        assert(whole.drop_last() =~= front);
        assert(last =~= Seq::<T>::empty());
    } else {
        lemma_contains_front(last);
        assert(whole.drop_last() =~= front.push(sep) + last.drop_last());
        assert(whole.last() == last.last());
        lemma_last_piece(front, sep, last.drop_last());
        let before = pieces(front, sep).push(last.drop_last());
        assert(last =~= last.drop_last().push(last.last()));
        assert(before.update(before.len() - 1, before.last().push(whole.last())) =~= pieces(
            front,
            sep,
        ).push(last));
    }
}

/// A sequence without separators is its only piece.
pub proof fn lemma_only_piece<T>(s: Seq<T>, sep: T)
    requires
        !s.contains(sep),
    ensures
        pieces(s, sep) == seq![s],
    decreases s.len(),
{
    if s.len() == 0 {
        assert(s =~= Seq::<T>::empty());
    } else {
        lemma_contains_front(s);
        lemma_only_piece(s.drop_last(), sep);
        assert(s =~= s.drop_last().push(s.last()));
        assert(pieces(s, sep) =~= seq![s]);
    }
}

/// A sequence holds its last item and whatever its front holds.
proof fn lemma_contains_front<T>(s: Seq<T>)
    requires
        s.len() > 0,
    ensures
        s.contains(s.last()),
        forall|x: T| s.drop_last().contains(x) ==> s.contains(x),
{
    assert forall|x: T| s.drop_last().contains(x) implies s.contains(x) by {
        let k = choose|k: int| 0 <= k < s.drop_last().len() && s.drop_last()[k] == x;
        assert(s[k] == x);
    }
}

/// The pieces of `s` between occurrences of `sep`.
pub fn split_at_char(s: &str, sep: char) -> (res: Vec<String>)
    ensures
        texts(res@) == pieces(s@, sep),
{
    let a = chars_of(s);
    let mut out: Vec<String> = Vec::new();
    let mut start: usize = 0;
    let mut i: usize = 0;
    proof {
        assert(a@.take(0).len() == 0);
        assert(a@.subrange(0, 0) =~= Seq::<char>::empty());
        assert(texts(out@).push(a@.subrange(0, 0)) =~= pieces(a@.take(0), sep));
    }
    while i < a.len()
        invariant
            start <= i <= a@.len(),
            texts(out@).push(a@.subrange(start as int, i as int)) == pieces(
                a@.take(i as int),
                sep,
            ),
        decreases a@.len() - i,
    {
        let ghost before = texts(out@);
        let ghost next = a@.take(i + 1);
        assert(next.drop_last() =~= a@.take(i as int));
        if a[i] == sep {
            let piece = string_of(&a, start, i);
            out.push(piece);
            start = i + 1;
            i = i + 1;
            assert(texts(out@) =~= before.push(piece@));
            assert(a@.subrange(start as int, i as int) =~= Seq::<char>::empty());
            assert(texts(out@).push(a@.subrange(start as int, i as int)) =~= pieces(next, sep));
        } else {
            i = i + 1;
            assert(a@.subrange(start as int, i as int) =~= a@.subrange(
                start as int,
                i - 1,
            ).push(a@[i - 1]));
            assert(before.push(a@.subrange(start as int, i as int)) =~= pieces(next, sep));
        }
    }
    let ghost before = texts(out@);
    let piece = string_of(&a, start, i);
    out.push(piece);
    assert(a@.take(a@.len() as int) =~= a@);
    assert(texts(out@) =~= before.push(piece@));
    out
}

/// The number that a sequence of decimal digits spells.
pub open spec fn numeral_value(s: Seq<char>) -> int
    decreases s.len(),
{
    if s.len() == 0 {
        0
    } else {
        10 * numeral_value(s.drop_last()) + (s.last() as u32 - '0' as u32)
    }
}

/// A numeral spells its number: it consists of decimal digits, they are worth
/// the number, and it begins with a zero only if it is the zero.
pub proof fn law_numeral_spells_its_number(n: nat)
    ensures
        decimal(n).len() > 0,
        forall|i: int| 0 <= i < decimal(n).len() ==> '0' <= #[trigger] decimal(n)[i] <= '9',
        numeral_value(decimal(n)) == n,
        decimal(n)[0] == '0' <==> n == 0,
    decreases n,
{
    if n < 10 {
        assert(decimal(n).drop_last() =~= Seq::empty());
        assert(numeral_value(decimal(n).drop_last()) == 0);
        assert(decimal(n).last() == digit(n));
    } else {
        law_numeral_spells_its_number(n / 10);
        assert(decimal(n).drop_last() =~= decimal(n / 10));
        assert(decimal(n)[0] == decimal(n / 10)[0]);
        assert(decimal(n).last() == digit(n % 10));
    }
}

/// The value of a lower-case hexadecimal digit.
pub open spec fn hex_value(c: char) -> int {
    if '0' <= c <= '9' {
        c as u32 - '0' as u32
    } else {
        c as u32 - 'a' as u32 + 10
    }
}

/// The hexadecimal form has two lower-case digits for every byte, in the order
/// of the bytes, and they are worth the byte.
pub proof fn law_hex_spells_the_bytes(bytes: Seq<u8>, i: int)
    requires
        0 <= i < bytes.len(),
    ensures
        hex(bytes).len() == 2 * bytes.len(),
        bytes[i] == 16 * hex_value(hex(bytes)[2 * i]) + hex_value(hex(bytes)[2 * i + 1]),
        '0' <= hex(bytes)[2 * i] <= '9' || 'a' <= hex(bytes)[2 * i] <= 'f',
        '0' <= hex(bytes)[2 * i + 1] <= '9' || 'a' <= hex(bytes)[2 * i + 1] <= 'f',
    decreases bytes.len(),
{
    let front = bytes.drop_last();
    if front.len() == 0 {
        assert(hex(front).len() == 0);
    } else {
        law_hex_spells_the_bytes(front, 0);
    }
    if i < front.len() {
        law_hex_spells_the_bytes(front, i);
        assert(hex(bytes)[2 * i] == hex(front)[2 * i]);
        assert(hex(bytes)[2 * i + 1] == hex(front)[2 * i + 1]);
    } else {
        assert(hex(bytes)[2 * i] == hex_digit((bytes[i] / 16) as nat));
        assert(hex(bytes)[2 * i + 1] == hex_digit((bytes[i] % 16) as nat));
    }
}

/// A list of ids begins with the numeral of the first, and where there are
/// more, the separator and the list of the others follow.
pub proof fn law_id_list_begins_with_the_first(ids: Seq<u64>, sep: Seq<char>)
    ensures
        id_list(Seq::empty(), sep) == Seq::<char>::empty(),
        ids.len() == 1 ==> id_list(ids, sep) == decimal(ids[0] as nat),
        ids.len() > 1 ==> id_list(ids, sep) == decimal(ids[0] as nat) + sep + id_list(
            ids.drop_first(),
            sep,
        ),
    decreases ids.len(),
{
    if ids.len() == 2 {
        reveal_with_fuel(id_list, 2);
    } else if ids.len() > 2 {
        law_id_list_begins_with_the_first(ids.drop_last(), sep);
        assert(ids.drop_first().drop_last() =~= ids.drop_last().drop_first());
        assert(id_list(ids, sep) =~= decimal(ids[0] as nat) + sep + id_list(
            ids.drop_first(),
            sep,
        ));
    }
}

/// A suffix comes off exactly where it is one: what is left, with the suffix
/// after it, is the whole, and where no text gives the whole that way nothing
/// comes off.
pub proof fn law_suffix_comes_off(s: Seq<char>, suffix: Seq<char>, rest: Seq<char>)
    ensures
        without_suffix(s, suffix) == Some(rest) <==> s == rest + suffix,
        without_suffix(rest + suffix, suffix) == Some(rest),
{
    let whole = rest + suffix;
    assert(suffix =~= whole.subrange(whole.len() - suffix.len(), whole.len() as int));
    assert(whole.take(rest.len() as int) =~= rest);
    if without_suffix(s, suffix) == Some(rest) {
        assert(s =~= rest + suffix);
    }
}

/// Every copy of the suffix at the end comes off, and nothing else does.
pub proof fn law_trimming_takes_all_copies(s: Seq<char>, suffix: Seq<char>)
    requires
        suffix.len() > 0,
    ensures
        trimmed_end(s + suffix, suffix) == trimmed_end(s, suffix),
        !suffix.is_suffix_of(s) ==> trimmed_end(s, suffix) == s,
        !suffix.is_suffix_of(trimmed_end(s, suffix)),
    decreases s.len(),
{
    let whole = s + suffix;
    assert(suffix =~= whole.subrange(whole.len() - suffix.len(), whole.len() as int));
    assert(whole.take(s.len() as int) =~= s);
    if suffix.is_suffix_of(s) {
        law_trimming_takes_all_copies(s.take(s.len() - suffix.len()), suffix);
    }
}

/// White space is what Unicode says it is.
pub proof fn law_white_space(c: char, res: bool)
    requires
        call_ensures(is_whitespace, (c,), res),
    ensures
        res <==> seq![
            '\t',
            '\n',
            '\u{b}',
            '\u{c}',
            '\r',
            ' ',
            '\u{85}',
            '\u{a0}',
            '\u{1680}',
            '\u{2000}',
            '\u{2001}',
            '\u{2002}',
            '\u{2003}',
            '\u{2004}',
            '\u{2005}',
            '\u{2006}',
            '\u{2007}',
            '\u{2008}',
            '\u{2009}',
            '\u{200a}',
            '\u{2028}',
            '\u{2029}',
            '\u{202f}',
            '\u{205f}',
            '\u{3000}',
        ].contains(c),
{
    let all = seq![
        '\t',
        '\n',
        '\u{b}',
        '\u{c}',
        '\r',
        ' ',
        '\u{85}',
        '\u{a0}',
        '\u{1680}',
        '\u{2000}',
        '\u{2001}',
        '\u{2002}',
        '\u{2003}',
        '\u{2004}',
        '\u{2005}',
        '\u{2006}',
        '\u{2007}',
        '\u{2008}',
        '\u{2009}',
        '\u{200a}',
        '\u{2028}',
        '\u{2029}',
        '\u{202f}',
        '\u{205f}',
        '\u{3000}',
    ];
    let n = c as u32;
    if 0x09 <= n <= 0x0d {
        assert(all[n - 0x09] == c);
    } else if n == 0x20 {
        assert(all[5] == c);
    } else if n == 0x85 {
        assert(all[6] == c);
    } else if n == 0xa0 {
        assert(all[7] == c);
    } else if n == 0x1680 {
        assert(all[8] == c);
    } else if 0x2000 <= n <= 0x200a {
        assert(all[n - 0x2000 + 9] == c);
    } else if n == 0x2028 {
        assert(all[20] == c);
    } else if n == 0x2029 {
        assert(all[21] == c);
    } else if n == 0x202f {
        assert(all[22] == c);
    } else if n == 0x205f {
        assert(all[23] == c);
    } else if n == 0x3000 {
        assert(all[24] == c);
    }
}

/// No character of the text is white space.
pub open spec fn unbroken(s: Seq<char>) -> bool {
    forall|i: int| 0 <= i < s.len() ==> !is_white(#[trigger] s[i])
}

proof fn lemma_word_len_before(s: Seq<char>, more: Seq<char>)
    requires
        more.len() == 0 || is_white(more[0]) || word_len(s) < s.len(),
    ensures
        word_len(s + more) == word_len(s),
    decreases s.len(),
{
    lemma_word_len_bound(s);
    if s.len() == 0 {
        assert(s + more =~= more);
    } else {
        assert((s + more)[0] == s[0]);
        if !is_white(s[0]) {
            assert((s + more).drop_first() =~= s.drop_first() + more);
            lemma_word_len_before(s.drop_first(), more);
        }
    }
}

proof fn lemma_word_len_stops(s: Seq<char>, k: int)
    requires
        0 <= k < s.len(),
        is_white(s[k]),
    ensures
        word_len(s) <= k,
    decreases s.len(),
{
    if k > 0 && !is_white(s[0]) {
        assert(s.drop_first()[k - 1] == s[k]);
        lemma_word_len_stops(s.drop_first(), k - 1);
    }
}

proof fn lemma_unbroken_len(s: Seq<char>)
    requires
        unbroken(s),
    ensures
        word_len(s) == s.len(),
    decreases s.len(),
{
    if s.len() > 0 {
        assert forall|i: int| 0 <= i < s.drop_first().len() implies !is_white(
            #[trigger] s.drop_first()[i],
        ) by {
            assert(s.drop_first()[i] == s[i + 1]);
        }
        lemma_unbroken_len(s.drop_first());
    }
}

/// The words of a text, told from its end: white space at the end adds
/// nothing, and an unbroken run of characters, at the beginning or after white
/// space, adds exactly one word, which is the run itself. The empty text has
/// no words.
pub proof fn law_words_from_the_end(s: Seq<char>, c: char, word: Seq<char>)
    requires
        is_white(c),
        word.len() > 0,
        unbroken(word),
    ensures
        words(Seq::empty()).len() == 0,
        words(s.push(c)) == words(s),
        s.len() == 0 || is_white(s.last()) ==> words(s + word) == words(s).push(word),
    decreases s.len(),
{
    let spaced = s.push(c);
    let whole = s + word;
    let starts = s.len() == 0 || is_white(s.last());
    if s.len() == 0 {
        lemma_unbroken_len(word);
        assert(whole =~= word);
        assert(word.take(word.len() as int) =~= word);
        assert(word.skip(word.len() as int) =~= Seq::<char>::empty());
        assert(!is_white(word[0]));
        assert(words(Seq::<char>::empty()).len() == 0);
        assert(words(word) == seq![word] + words(Seq::<char>::empty()));
        assert(words(whole) =~= words(s).push(word));
        assert(spaced.drop_first() =~= s);
    } else if is_white(s[0]) {
        law_words_from_the_end(s.drop_first(), c, word);
        assert(spaced.drop_first() =~= s.drop_first().push(c));
        assert(whole.drop_first() =~= s.drop_first() + word);
    } else {
        let n = word_len(s) as int;
        lemma_word_len_bound(s);
        law_words_from_the_end(s.skip(n), c, word);
        lemma_word_len_before(s, seq![c]);
        assert(spaced =~= s + seq![c]);
        assert(spaced.take(n) =~= s.take(n));
        assert(spaced.skip(n) =~= s.skip(n).push(c));
        if starts {
            lemma_word_len_stops(s, s.len() - 1);
            lemma_word_len_before(s, word);
            assert(whole.take(n) =~= s.take(n));
            assert(whole.skip(n) =~= s.skip(n) + word);
            assert(s.skip(n).last() == s.last());
            assert(whole[0] == s[0]);
            assert(words(whole) == seq![s.take(n)] + words(s.skip(n) + word));
            assert(words(whole) =~= words(s).push(word));
        }
    }
}

/// The parts with one separator between neighbours.
pub open spec fn glued<T>(parts: Seq<Seq<T>>, sep: T) -> Seq<T>
    decreases parts.len(),
{
    if parts.len() == 0 {
        Seq::empty()
    } else if parts.len() == 1 {
        parts[0]
    } else {
        glued(parts.drop_last(), sep).push(sep) + parts.last()
    }
}

/// Splitting loses nothing: the pieces, glued together again with the
/// separator, are the whole, and no piece holds the separator.
pub proof fn law_pieces_make_the_whole<T>(s: Seq<T>, sep: T)
    ensures
        glued(pieces(s, sep), sep) == s,
        forall|i: int|
            0 <= i < pieces(s, sep).len() ==> !(#[trigger] pieces(s, sep)[i]).contains(sep),
    decreases s.len(),
{
    lemma_pieces(s, sep);
    if s.len() == 0 {
        assert(glued(pieces(s, sep), sep) =~= s);
    } else {
        let front = pieces(s.drop_last(), sep);
        law_pieces_make_the_whole(s.drop_last(), sep);
        lemma_pieces(s.drop_last(), sep);
        let all = pieces(s, sep);
        if s.last() == sep {
            assert(all.drop_last() =~= front);
            assert(glued(all, sep) =~= s);
        } else {
            assert(all.drop_last() =~= front.drop_last());
            assert(all.last() =~= front.last().push(s.last()));
            assert(glued(all, sep) =~= glued(front, sep).push(s.last()));
            assert(glued(all, sep) =~= s);
        }
    }
}

} // verus!

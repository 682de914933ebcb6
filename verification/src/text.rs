//! Text primitives: comparison, trimming, splitting and rendering of strings.
//!
//! Every function is stated over the sequence of characters of a string, so the
//! rest of the library never reasons about byte offsets unless it has to.

use vstd::prelude::*;
use vstd::string::*;
use vstd::utf8::*;

verus! {

broadcast use vstd::string::group_string_axioms;

/// `String::push` appends one character to the end of the string.
pub assume_specification[ String::push ](s: &mut String, c: char)
    ensures
        final(s)@ == old(s)@.push(c),
;

/// The texts held by a sequence of strings.
pub open spec fn texts(strings: Seq<String>) -> Seq<Seq<char>> {
    strings.map_values(|s: String| s@)
}

/// The text held by an optional string.
pub open spec fn opt_text(s: Option<String>) -> Option<Seq<char>> {
    match s {
        Some(t) => Some(t@),
        None => None,
    }
}

/// Collect the characters of a string.
pub fn chars_of(s: &str) -> (res: Vec<char>)
    ensures
        res@ == s@,
{
    let mut res: Vec<char> = Vec::new();
    for c in it: s.chars()
        invariant
            it.seq() == s@,
            res@ == s@.take(it.index()),
    {
        proof {
            assert(s@.take(it.index() + 1) =~= s@.take(it.index()).push(c));
        }
        res.push(c);
    }
    assert(s@.take(s@.len() as int) =~= s@);
    res
}

/// Build a string from a range of characters.
pub fn string_of(chars: &Vec<char>, from: usize, to: usize) -> (res: String)
    requires
        from <= to <= chars@.len(),
    ensures
        res@ == chars@.subrange(from as int, to as int),
{
    let mut res = String::new();
    let mut i: usize = from;
    while i < to
        invariant
            from <= i <= to <= chars@.len(),
            res@ == chars@.subrange(from as int, i as int),
        decreases to - i,
    {
        res.push(chars[i]);
        i = i + 1;
        assert(chars@.subrange(from as int, i as int) =~= chars@.subrange(
            from as int,
            i - 1,
        ).push(chars@[i - 1]));
    }
    res
}

/// Two texts with the same UTF-8 encoding are the same text.
pub proof fn lemma_utf8_injective(a: Seq<char>, b: Seq<char>)
    requires
        encode_utf8(a) == encode_utf8(b),
    ensures
        a == b,
{
    encode_utf8_decode_utf8(a);
    encode_utf8_decode_utf8(b);
}

/// The encoding of a concatenation is the concatenation of the encodings.
pub proof fn lemma_utf8_concat(a: Seq<char>, b: Seq<char>)
    ensures
        encode_utf8(a + b) == encode_utf8(a) + encode_utf8(b),
    decreases a.len(),
{
    reveal_with_fuel(encode_utf8, 2);
    if a.len() == 0 {
        assert(a + b =~= b);
        assert(encode_utf8(a) + encode_utf8(b) =~= encode_utf8(b));
    } else {
        assert((a + b).drop_first() =~= a.drop_first() + b);
        lemma_utf8_concat(a.drop_first(), b);
        assert(encode_utf8(a + b) =~= encode_utf8(a) + encode_utf8(b));
    }
}

/// Every character takes one to four bytes.
pub proof fn lemma_utf8_len(a: Seq<char>)
    ensures
        a.len() <= encode_utf8(a).len() <= 4 * a.len(),
    decreases a.len(),
{
    reveal_with_fuel(encode_utf8, 2);
    if a.len() > 0 {
        lemma_utf8_len(a.drop_first());
    }
}

/// Position of one text relative to another in byte order.
#[derive(PartialEq, Eq, Clone, Copy, Debug, Structural)]
pub enum Rank {
    Before,
    Same,
    After,
}

/// Lexicographic order on byte strings.
pub open spec fn bytes_before(a: Seq<u8>, b: Seq<u8>) -> bool
    decreases a.len(),
{
    if b.len() == 0 {
        false
    } else if a.len() == 0 {
        true
    } else if a[0] != b[0] {
        a[0] < b[0]
    } else {
        bytes_before(a.drop_first(), b.drop_first())
    }
}

/// Strings are ordered by their UTF-8 bytes.
pub open spec fn text_before(a: Seq<char>, b: Seq<char>) -> bool {
    bytes_before(encode_utf8(a), encode_utf8(b))
}

proof fn lemma_bytes_before_irreflexive(a: Seq<u8>)
    ensures
        !bytes_before(a, a),
    decreases a.len(),
{
    if a.len() > 0 {
        lemma_bytes_before_irreflexive(a.drop_first());
    }
}

proof fn lemma_bytes_before_transitive(a: Seq<u8>, b: Seq<u8>, c: Seq<u8>)
    requires
        bytes_before(a, b),
        bytes_before(b, c),
    ensures
        bytes_before(a, c),
    decreases a.len(),
{
    if a.len() > 0 && b.len() > 0 && c.len() > 0 && a[0] == b[0] && b[0] == c[0] {
        lemma_bytes_before_transitive(a.drop_first(), b.drop_first(), c.drop_first());
    }
}

proof fn lemma_bytes_before_total(a: Seq<u8>, b: Seq<u8>)
    ensures
        a == b || bytes_before(a, b) || bytes_before(b, a),
    decreases a.len(),
{
    if a.len() == 0 || b.len() == 0 {
        if a.len() == 0 && b.len() == 0 {
            assert(a =~= b);
        }
    } else if a[0] == b[0] {
        lemma_bytes_before_total(a.drop_first(), b.drop_first());
        if a.drop_first() == b.drop_first() {
            assert(a =~= seq![a[0]] + a.drop_first());
            assert(b =~= seq![b[0]] + b.drop_first());
        }
    }
}

/// No text precedes itself.
pub proof fn lemma_text_before_irreflexive(a: Seq<char>)
    ensures
        !text_before(a, a),
{
    lemma_bytes_before_irreflexive(encode_utf8(a));
}

/// The order on texts is transitive.
pub proof fn lemma_text_before_transitive(a: Seq<char>, b: Seq<char>, c: Seq<char>)
    requires
        text_before(a, b),
        text_before(b, c),
    ensures
        text_before(a, c),
{
    lemma_bytes_before_transitive(encode_utf8(a), encode_utf8(b), encode_utf8(c));
}

/// Two different texts are ordered one way and not the other.
pub proof fn lemma_text_before_total(a: Seq<char>, b: Seq<char>)
    ensures
        a == b || text_before(a, b) || text_before(b, a),
        !(text_before(a, b) && text_before(b, a)),
{
    lemma_bytes_before_total(encode_utf8(a), encode_utf8(b));
    if encode_utf8(a) == encode_utf8(b) {
        lemma_utf8_injective(a, b);
    }
    if text_before(a, b) && text_before(b, a) {
        lemma_text_before_transitive(a, b, a);
        lemma_text_before_irreflexive(a);
    }
}

/// Dropping a common prefix keeps the order.
proof fn lemma_bytes_before_skip(a: Seq<u8>, b: Seq<u8>, n: int)
    requires
        0 <= n <= a.len(),
        n <= b.len(),
        a.take(n) == b.take(n),
    ensures
        bytes_before(a, b) == bytes_before(a.skip(n), b.skip(n)),
    decreases n,
{
    if n == 0 {
        assert(a.skip(0) =~= a);
        assert(b.skip(0) =~= b);
    } else {
        assert(a[0] == a.take(n)[0]);
        assert(b[0] == b.take(n)[0]);
        assert(a.drop_first().take(n - 1) =~= a.take(n).drop_first());
        assert(b.drop_first().take(n - 1) =~= b.take(n).drop_first());
        lemma_bytes_before_skip(a.drop_first(), b.drop_first(), n - 1);
        assert(a.drop_first().skip(n - 1) =~= a.skip(n));
        assert(b.drop_first().skip(n - 1) =~= b.skip(n));
    }
}

/// Compare two byte strings lexicographically.
fn rank_bytes(a: &[u8], b: &[u8]) -> (res: Rank)
    ensures
        res == Rank::Before <==> bytes_before(a@, b@),
        res == Rank::Same <==> a@ == b@,
        res == Rank::After <==> bytes_before(b@, a@),
{
    let mut i: usize = 0;
    while i < a.len() && i < b.len() && a[i] == b[i]
        invariant
            i <= a@.len(),
            i <= b@.len(),
            a@.take(i as int) == b@.take(i as int),
        decreases a.len() - i,
    {
        i = i + 1;
        assert(a@.take(i as int) =~= a@.take(i - 1).push(a@[i - 1]));
        assert(b@.take(i as int) =~= b@.take(i - 1).push(b@[i - 1]));
    }
    proof {
        lemma_bytes_before_skip(a@, b@, i as int);
        lemma_bytes_before_skip(b@, a@, i as int);
        lemma_bytes_before_irreflexive(a@);
        lemma_bytes_before_irreflexive(b@);
    }
    if i == a.len() {
        if i == b.len() {
            assert(a@.take(i as int) =~= a@);
            assert(b@.take(i as int) =~= b@);
            Rank::Same
        } else {
            assert(a@.skip(i as int).len() == 0);
            Rank::Before
        }
    } else if i == b.len() {
        assert(b@.skip(i as int).len() == 0);
        Rank::After
    } else if a[i] < b[i] {
        Rank::Before
    } else {
        Rank::After
    }
}

/// Compare two strings by their UTF-8 bytes.
pub fn rank_texts(a: &str, b: &str) -> (res: Rank)
    ensures
        res == Rank::Before <==> text_before(a@, b@),
        res == Rank::Same <==> a@ == b@,
        res == Rank::After <==> text_before(b@, a@),
{
    let res = rank_bytes(a.as_bytes(), b.as_bytes());
    proof {
        if res == Rank::Same {
            lemma_utf8_injective(a@, b@);
        }
    }
    res
}

/// Whether two strings hold the same text.
pub fn same_text(a: &str, b: &str) -> (res: bool)
    ensures
        res == (a@ == b@),
{
    matches!(rank_texts(a, b), Rank::Same)
}

/// Copy a list of strings.
pub fn copy_strings(strings: &Vec<String>) -> (res: Vec<String>)
    ensures
        texts(res@) == texts(strings@),
{
    let mut res: Vec<String> = Vec::new();
    let mut i: usize = 0;
    while i < strings.len()
        invariant
            i <= strings@.len(),
            res@ == strings@.take(i as int),
        decreases strings.len() - i,
    {
        res.push(strings[i].clone());
        i = i + 1;
        assert(strings@.take(i as int) =~= strings@.take(i - 1).push(strings@[i - 1]));
    }
    assert(strings@.take(i as int) =~= strings@);
    res
}

/// Copy an optional string.
pub fn copy_opt(s: &Option<String>) -> (res: Option<String>)
    ensures
        opt_text(res) == opt_text(*s),
{
    match s {
        Some(t) => Some(t.clone()),
        None => None,
    }
}

/// Whether a list of strings holds the given text.
pub fn list_contains(strings: &Vec<String>, text: &str) -> (res: bool)
    ensures
        res == texts(strings@).contains(text@),
{
    let mut i: usize = 0;
    while i < strings.len()
        invariant
            i <= strings@.len(),
            forall|j: int| 0 <= j < i ==> texts(strings@)[j] != text@,
        decreases strings.len() - i,
    {
        if same_text(strings[i].as_str(), text) {
            assert(texts(strings@)[i as int] == text@);
            return true;
        }
        i = i + 1;
    }
    false
}

/// Concatenation of two texts.
pub fn cat2(a: &str, b: &str) -> (res: String)
    ensures
        res@ == a@ + b@,
{
    let mut res = a.to_owned();
    res.append(b);
    res
}

/// Concatenation of three texts.
pub fn cat3(a: &str, b: &str, c: &str) -> (res: String)
    ensures
        res@ == a@ + b@ + c@,
{
    let mut res = cat2(a, b);
    res.append(c);
    res
}

/// Concatenation of four texts.
pub fn cat4(a: &str, b: &str, c: &str, d: &str) -> (res: String)
    ensures
        res@ == a@ + b@ + c@ + d@,
{
    let mut res = cat3(a, b, c);
    res.append(d);
    res
}

/// Concatenation of five texts.
pub fn cat5(a: &str, b: &str, c: &str, d: &str, e: &str) -> (res: String)
    ensures
        res@ == a@ + b@ + c@ + d@ + e@,
{
    let mut res = cat4(a, b, c, d);
    res.append(e);
    res
}

/// The decimal digit with the given value.
pub open spec fn digit(n: nat) -> char {
    (('0' as u32) + n) as char
}

/// A number in decimal notation, without leading zeros.
pub open spec fn decimal(n: nat) -> Seq<char>
    decreases n,
{
    if n < 10 {
        seq![digit(n)]
    } else {
        decimal(n / 10).push(digit(n % 10))
    }
}

fn digit_char(n: u64) -> (res: char)
    requires
        n < 10,
    ensures
        res == digit(n as nat),
{
    if n == 0 {
        '0'
    } else if n == 1 {
        '1'
    } else if n == 2 {
        '2'
    } else if n == 3 {
        '3'
    } else if n == 4 {
        '4'
    } else if n == 5 {
        '5'
    } else if n == 6 {
        '6'
    } else if n == 7 {
        '7'
    } else if n == 8 {
        '8'
    } else {
        '9'
    }
}

/// Render a number in decimal.
pub fn decimal_text(n: u64) -> (res: String)
    ensures
        res@ == decimal(n as nat),
    decreases n,
{
    if n < 10 {
        let mut res = String::new();
        res.push(digit_char(n));
        assert(res@ =~= seq![digit(n as nat)]);
        res
    } else {
        let mut res = decimal_text(n / 10);
        res.push(digit_char(n % 10));
        res
    }
}

/// Render a size in decimal.
pub fn count_text(n: usize) -> (res: String)
    ensures
        res@ == decimal(n as nat),
{
    decimal_text(n as u64)
}

/// The word for a truth value.
pub open spec fn bool_word(b: bool) -> Seq<char> {
    if b {
        "true"@
    } else {
        "false"@
    }
}

/// Render a truth value.
pub fn bool_text(b: bool) -> (res: &'static str)
    ensures
        res@ == bool_word(b),
{
    if b {
        "true"
    } else {
        "false"
    }
}

/// A text extended with spaces on the right up to a width.
pub open spec fn padded(s: Seq<char>, width: nat) -> Seq<char> {
    if s.len() >= width {
        s
    } else {
        s + Seq::new((width - s.len()) as nat, |i: int| ' ')
    }
}

/// Extend a text with spaces on the right up to a width.
pub fn pad_right(s: &str, width: usize) -> (res: String)
    ensures
        res@ == padded(s@, width as nat),
{
    let mut res = s.to_owned();
    let mut n: usize = s.unicode_len();
    assert(res@ =~= s@ + Seq::new(0, |i: int| ' '));
    while n < width
        invariant
            n >= s@.len(),
            n <= width || n == s@.len(),
            res@ == s@ + Seq::new((n - s@.len()) as nat, |i: int| ' '),
        decreases width - n,
    {
        res.push(' ');
        n = n + 1;
        assert(res@ =~= s@ + Seq::new((n - s@.len()) as nat, |i: int| ' '));
    }
    assert(res@ =~= padded(s@, width as nat));
    res
}

/// The upper-case hexadecimal digit with the given value.
pub open spec fn hex_digit(n: nat) -> char {
    if n < 10 {
        digit(n)
    } else {
        (('A' as u32) + (n - 10)) as char
    }
}

fn hex_char(n: u8) -> (res: char)
    requires
        n < 16,
    ensures
        res == hex_digit(n as nat),
{
    if n < 10 {
        digit_char(n as u64)
    } else if n == 10 {
        'A'
    } else if n == 11 {
        'B'
    } else if n == 12 {
        'C'
    } else if n == 13 {
        'D'
    } else if n == 14 {
        'E'
    } else {
        'F'
    }
}

/// Bytes as upper-case hexadecimal, two digits per byte.
pub open spec fn hex(bytes: Seq<u8>) -> Seq<char>
    decreases bytes.len(),
{
    if bytes.len() == 0 {
        Seq::empty()
    } else {
        hex(bytes.drop_last()).push(hex_digit((bytes.last() / 16) as nat)).push(
            hex_digit((bytes.last() % 16) as nat),
        )
    }
}

/// Render bytes as upper-case hexadecimal.
pub fn hex_text(bytes: &[u8]) -> (res: String)
    ensures
        res@ == hex(bytes@),
{
    let mut res = String::new();
    let mut i: usize = 0;
    while i < bytes.len()
        invariant
            i <= bytes@.len(),
            res@ == hex(bytes@.take(i as int)),
        decreases bytes.len() - i,
    {
        res.push(hex_char(bytes[i] / 16));
        res.push(hex_char(bytes[i] % 16));
        i = i + 1;
        assert(bytes@.take(i as int).drop_last() =~= bytes@.take(i - 1));
    }
    assert(bytes@.take(i as int) =~= bytes@);
    res
}

/// Every byte gives two hexadecimal digits.
pub proof fn lemma_hex(bytes: Seq<u8>)
    ensures
        hex(bytes).len() == 2 * bytes.len(),
        forall|i: int| 0 <= i < hex(bytes).len() ==> is_hex_digit(#[trigger] hex(bytes)[i]),
    decreases bytes.len(),
{
    if bytes.len() > 0 {
        lemma_hex(bytes.drop_last());
        let high = bytes.last() / 16;
        let low = bytes.last() % 16;
        assert(high < 16 && low < 16);
        lemma_hex_digit(high as nat);
        lemma_hex_digit(low as nat);
    }
}

/// The digits of [`hex_digit`] are hexadecimal digits.
proof fn lemma_hex_digit(n: nat)
    requires
        n < 16,
    ensures
        is_hex_digit(hex_digit(n)),
{
}

/// The number of bytes of a text in UTF-8.
pub fn byte_len(s: &str) -> (res: usize)
    ensures
        res == encode_utf8(s@).len(),
{
    s.as_bytes().len()
}

/// An ASCII text has as many bytes as characters.
pub proof fn lemma_ascii_len(s: Seq<char>)
    requires
        forall|i: int| 0 <= i < s.len() ==> '\0' <= #[trigger] s[i] <= '\x7f',
    ensures
        encode_utf8(s).len() == s.len(),
{
    assert(vstd::utf8::is_ascii_chars(s));
    vstd::utf8::is_ascii_chars_encode_utf8(s);
}

/// Bytes as upper-case hexadecimal with a colon between bytes.
pub open spec fn colon_hex(bytes: Seq<u8>) -> Seq<char>
    decreases bytes.len(),
{
    if bytes.len() == 0 {
        Seq::empty()
    } else if bytes.len() == 1 {
        hex(bytes)
    } else {
        colon_hex(bytes.drop_last()).push(':') + hex(seq![bytes.last()])
    }
}

/// Render bytes as colon-separated upper-case hexadecimal.
pub fn colon_hex_text(bytes: &[u8]) -> (res: String)
    ensures
        res@ == colon_hex(bytes@),
{
    let mut res = String::new();
    let mut i: usize = 0;
    while i < bytes.len()
        invariant
            i <= bytes@.len(),
            res@ == colon_hex(bytes@.take(i as int)),
        decreases bytes.len() - i,
    {
        proof {
            reveal_with_fuel(hex, 3);
        }
        let ghost before = res@;
        if i > 0 {
            res.push(':');
        }
        res.push(hex_char(bytes[i] / 16));
        res.push(hex_char(bytes[i] % 16));
        i = i + 1;
        proof {
            let one: Seq<u8> = seq![bytes@[i - 1]];
            assert(one.drop_last() =~= Seq::<u8>::empty());
            assert(bytes@.take(i as int).drop_last() =~= bytes@.take(i - 1));
            if i == 1 {
                assert(bytes@.take(1) =~= one);
                assert(res@ =~= hex(one));
            } else {
                assert(res@ =~= before.push(':') + hex(one));
            }
        }
    }
    assert(bytes@.take(i as int) =~= bytes@);
    res
}

/// Copy a byte string.
pub fn copy_bytes(bytes: &[u8]) -> (res: Vec<u8>)
    ensures
        res@ == bytes@,
{
    vstd::slice::slice_to_vec(bytes)
}

/// Whether two byte strings are equal.
pub fn same_bytes(a: &[u8], b: &[u8]) -> (res: bool)
    ensures
        res == (a@ == b@),
{
    matches!(rank_bytes(a, b), Rank::Same)
}

/// Characters with the Unicode `White_Space` property.
pub open spec fn is_white(c: char) -> bool {
    let n = c as u32;
    ||| 0x09 <= n <= 0x0D
    ||| n == 0x20
    ||| n == 0x85
    ||| n == 0xA0
    ||| n == 0x1680
    ||| 0x2000 <= n <= 0x200A
    ||| n == 0x2028
    ||| n == 0x2029
    ||| n == 0x202F
    ||| n == 0x205F
    ||| n == 0x3000
}

/// Decide whether a character is white space.
pub fn char_is_white(c: char) -> (res: bool)
    ensures
        res == is_white(c),
{
    let n: u32 = c as u32;
    (0x09 <= n && n <= 0x0D) || n == 0x20 || n == 0x85 || n == 0xA0 || n == 0x1680 || (0x2000 <= n
        && n <= 0x200A) || n == 0x2028 || n == 0x2029 || n == 0x202F || n == 0x205F || n == 0x3000
}

/// Characters of the Unicode general category `Cc`.
pub open spec fn is_control(c: char) -> bool {
    let n = c as u32;
    n <= 0x1F || 0x7F <= n <= 0x9F
}

/// Decide whether a character is a control character.
pub fn char_is_control(c: char) -> (res: bool)
    ensures
        res == is_control(c),
{
    let n: u32 = c as u32;
    n <= 0x1F || (0x7F <= n && n <= 0x9F)
}

/// ASCII letters.
pub open spec fn is_letter(c: char) -> bool {
    'a' <= c <= 'z' || 'A' <= c <= 'Z'
}

/// ASCII decimal digits.
pub open spec fn is_digit(c: char) -> bool {
    '0' <= c <= '9'
}

/// ASCII letters and digits.
pub open spec fn is_alnum(c: char) -> bool {
    is_letter(c) || is_digit(c)
}

/// ASCII hexadecimal digits in either case.
pub open spec fn is_hex_digit(c: char) -> bool {
    is_digit(c) || 'a' <= c <= 'f' || 'A' <= c <= 'F'
}

/// Decide whether a character is an ASCII letter.
pub fn char_is_letter(c: char) -> (res: bool)
    ensures
        res == is_letter(c),
{
    ('a' <= c && c <= 'z') || ('A' <= c && c <= 'Z')
}

/// Decide whether a character is an ASCII letter or digit.
pub fn char_is_alnum(c: char) -> (res: bool)
    ensures
        res == is_alnum(c),
{
    char_is_letter(c) || ('0' <= c && c <= '9')
}

/// Decide whether a character is an ASCII hexadecimal digit.
pub fn char_is_hex(c: char) -> (res: bool)
    ensures
        res == is_hex_digit(c),
{
    ('0' <= c && c <= '9') || ('a' <= c && c <= 'f') || ('A' <= c && c <= 'F')
}

/// The classes of characters that are stripped from the ends of texts.
#[derive(Clone, Copy)]
pub enum Stripped {
    /// White space.
    White,
    /// Quotes, brackets and separators that may wrap a word.
    Wrapping,
    /// The full stop.
    Stop,
}

/// Quotes, brackets and separators that may wrap a word.
pub open spec fn is_wrapping(c: char) -> bool {
    c == '"' || c == '\'' || c == '`' || c == '<' || c == '>' || c == '(' || c == ')' || c == '['
        || c == ']' || c == '{' || c == '}' || c == ',' || c == ';' || c == ':' || c == '!' || c
        == '?'
}

/// Whether a character belongs to a class.
pub open spec fn in_class(k: Stripped, c: char) -> bool {
    match k {
        Stripped::White => is_white(c),
        Stripped::Wrapping => is_wrapping(c),
        Stripped::Stop => c == '.',
    }
}

/// Decide whether a character belongs to a class.
pub fn char_in_class(k: Stripped, c: char) -> (res: bool)
    ensures
        res == in_class(k, c),
{
    match k {
        Stripped::White => char_is_white(c),
        Stripped::Wrapping => c == '"' || c == '\'' || c == '`' || c == '<' || c == '>' || c == '('
            || c == ')' || c == '[' || c == ']' || c == '{' || c == '}' || c == ',' || c == ';' || c
            == ':' || c == '!' || c == '?',
        Stripped::Stop => c == '.',
    }
}

/// A text without its longest prefix of characters of a class.
pub open spec fn trim_start_by(s: Seq<char>, k: Stripped) -> Seq<char>
    decreases s.len(),
{
    if s.len() > 0 && in_class(k, s[0]) {
        trim_start_by(s.drop_first(), k)
    } else {
        s
    }
}

/// A text without its longest suffix of characters of a class.
pub open spec fn trim_end_by(s: Seq<char>, k: Stripped) -> Seq<char>
    decreases s.len(),
{
    if s.len() > 0 && in_class(k, s.last()) {
        trim_end_by(s.drop_last(), k)
    } else {
        s
    }
}

/// A text without leading and trailing characters of a class.
pub open spec fn trim_by(s: Seq<char>, k: Stripped) -> Seq<char> {
    trim_end_by(trim_start_by(s, k), k)
}

/// A text without surrounding white space.
pub open spec fn trimmed(s: Seq<char>) -> Seq<char> {
    trim_by(s, Stripped::White)
}

/// The end of the characters that stay when a range is trimmed at its end.
pub fn trim_end_at(chars: &Vec<char>, from: usize, to: usize, k: Stripped) -> (res: usize)
    requires
        from <= to <= chars@.len(),
    ensures
        from <= res <= to,
        chars@.subrange(from as int, res as int) == trim_end_by(
            chars@.subrange(from as int, to as int),
            k,
        ),
{
    let mut j: usize = to;
    while j > from && char_in_class(k, chars[j - 1])
        invariant
            from <= j <= to <= chars@.len(),
            trim_end_by(chars@.subrange(from as int, j as int), k) == trim_end_by(
                chars@.subrange(from as int, to as int),
                k,
            ),
        decreases j,
    {
        proof {
            assert(chars@.subrange(from as int, j as int).drop_last() =~= chars@.subrange(
                from as int,
                j - 1,
            ));
        }
        j = j - 1;
    }
    j
}

/// The range of the characters that stay when a text is trimmed at both ends.
pub fn trim_range(chars: &Vec<char>, k: Stripped) -> (res: (usize, usize))
    ensures
        res.0 <= res.1 <= chars@.len(),
        chars@.subrange(res.0 as int, res.1 as int) == trim_by(chars@, k),
{
    let n: usize = chars.len();
    let mut i: usize = 0;
    assert(chars@.subrange(0, n as int) =~= chars@);
    while i < n && char_in_class(k, chars[i])
        invariant
            i <= n == chars@.len(),
            trim_start_by(chars@.subrange(i as int, n as int), k) == trim_start_by(chars@, k),
        decreases n - i,
    {
        proof {
            assert(chars@.subrange(i as int, n as int).drop_first() =~= chars@.subrange(
                i + 1,
                n as int,
            ));
        }
        i = i + 1;
    }
    let j: usize = trim_end_at(chars, i, n, k);
    (i, j)
}

/// Remove surrounding white space.
pub fn trim(s: &str) -> (res: String)
    ensures
        res@ == trimmed(s@),
{
    let chars = chars_of(s);
    let (i, j) = trim_range(&chars, Stripped::White);
    string_of(&chars, i, j)
}

/// Decide whether a text starts with another.
pub fn has_prefix(s: &str, prefix: &str) -> (res: bool)
    ensures
        res == prefix@.is_prefix_of(s@),
{
    let a = chars_of(s);
    let b = chars_of(prefix);
    chars_have_prefix(&a, &b)
}

/// Decide whether a character list starts with another.
pub fn chars_have_prefix(a: &Vec<char>, b: &Vec<char>) -> (res: bool)
    ensures
        res == b@.is_prefix_of(a@),
{
    if b.len() > a.len() {
        return false;
    }
    let mut i: usize = 0;
    while i < b.len()
        invariant
            i <= b@.len() <= a@.len(),
            forall|j: int| 0 <= j < i ==> a@[j] == b@[j],
        decreases b.len() - i,
    {
        if a[i] != b[i] {
            assert(a@.subrange(0, b@.len() as int)[i as int] == a@[i as int]);
            return false;
        }
        i = i + 1;
    }
    assert(a@.subrange(0, b@.len() as int) =~= b@);
    true
}

/// Decide whether a text holds a character.
pub fn has_char(chars: &Vec<char>, c: char) -> (res: bool)
    ensures
        res == chars@.contains(c),
{
    let mut i: usize = 0;
    while i < chars.len()
        invariant
            i <= chars@.len(),
            forall|j: int| 0 <= j < i ==> chars@[j] != c,
        decreases chars.len() - i,
    {
        if chars[i] == c {
            return true;
        }
        i = i + 1;
    }
    false
}

/// A text occurs inside another.
pub open spec fn occurs_in(needle: Seq<char>, s: Seq<char>) -> bool {
    exists|i: int|
        0 <= i && i + needle.len() <= s.len() && #[trigger] s.subrange(i, i + needle.len())
            == needle
}

/// Decide whether a text occurs inside another.
pub fn text_occurs(needle: &str, s: &str) -> (res: bool)
    ensures
        res == occurs_in(needle@, s@),
{
    let a = chars_of(s);
    let b = chars_of(needle);
    if b.len() > a.len() {
        return false;
    }
    let n: usize = a.len();
    let mut i: usize = 0;
    while i <= n - b.len()
        invariant
            n == a@.len(),
            a@ == s@,
            b@ == needle@,
            b@.len() <= a@.len(),
            i <= a@.len() - b@.len() + 1,
            forall|k: int| 0 <= k < i ==> #[trigger] a@.subrange(k, k + b@.len()) != b@,
        decreases n + 1 - i,
    {
        let mut j: usize = 0;
        let mut same: bool = true;
        while j < b.len()
            invariant
                n == a@.len(),
                i + b@.len() <= n,
                j <= b@.len(),
                same == (forall|k: int| 0 <= k < j ==> a@[i + k] == b@[k]),
            decreases b.len() - j,
        {
            if a[i + j] != b[j] {
                same = false;
            }
            j = j + 1;
        }
        if same {
            assert(a@.subrange(i as int, i + b@.len()) =~= b@);
            return true;
        }
        proof {
            let k = choose|k: int| 0 <= k < b@.len() && a@[i + k] != b@[k];
            assert(a@.subrange(i as int, i + b@.len())[k] == a@[i + k]);
        }
        i = i + 1;
    }
    false
}

/// The pieces of a text between occurrences of a separator.
pub open spec fn split_on(s: Seq<char>, sep: char) -> Seq<Seq<char>>
    decreases s.len(),
{
    if s.len() == 0 {
        seq![Seq::empty()]
    } else {
        let rest = split_on(s.drop_last(), sep);
        if s.last() == sep {
            rest.push(Seq::empty())
        } else {
            rest.drop_last().push(rest.last().push(s.last()))
        }
    }
}

/// Splitting always gives at least one piece.
pub proof fn lemma_split_nonempty(s: Seq<char>, sep: char)
    ensures
        split_on(s, sep).len() >= 1,
    decreases s.len(),
{
    if s.len() > 0 {
        lemma_split_nonempty(s.drop_last(), sep);
    }
}

/// Split a character list at a separator.
pub fn split_chars(chars: &Vec<char>, sep: char) -> (res: Vec<String>)
    ensures
        texts(res@) == split_on(chars@, sep),
        res@.len() >= 1,
{
    let mut res: Vec<String> = Vec::new();
    let mut current = String::new();
    let mut i: usize = 0;
    assert(chars@.take(0) =~= Seq::<char>::empty());
    assert(texts(res@).push(current@) =~= seq![Seq::<char>::empty()]);
    while i < chars.len()
        invariant
            i <= chars@.len(),
            texts(res@).push(current@) == split_on(chars@.take(i as int), sep),
        decreases chars.len() - i,
    {
        let ghost before = texts(res@).push(current@);
        proof {
            assert(chars@.take(i + 1).drop_last() =~= chars@.take(i as int));
            assert(before.drop_last() =~= texts(res@));
        }
        if chars[i] == sep {
            let ghost old_res = res@;
            let ghost old_current = current;
            res.push(current);
            current = String::new();
            proof {
                assert(texts(res@) =~= texts(old_res).push(old_current@));
                assert(texts(res@).push(current@) =~= before.push(Seq::<char>::empty()));
            }
        } else {
            current.push(chars[i]);
        }
        i = i + 1;
    }
    assert(chars@.take(i as int) =~= chars@);
    let ghost old_res = res@;
    let ghost last = current;
    res.push(current);
    assert(texts(res@) =~= texts(old_res).push(last@));
    res
}

/// Split a text into the pieces between line feeds.
pub fn split_lines(s: &str) -> (res: Vec<String>)
    ensures
        texts(res@) == split_on(s@, '\n'),
{
    let chars = chars_of(s);
    split_chars(&chars, '\n')
}

/// Whether two lists hold the same texts in the same order.
pub fn same_list(a: &Vec<String>, b: &Vec<String>) -> (res: bool)
    ensures
        res == (texts(a@) == texts(b@)),
{
    assert(texts(a@).len() == a@.len() && texts(b@).len() == b@.len());
    if a.len() != b.len() {
        return false;
    }
    let mut i: usize = 0;
    while i < a.len()
        invariant
            a@.len() == b@.len(),
            i <= a@.len(),
            forall|j: int| 0 <= j < i ==> #[trigger] texts(a@)[j] == texts(b@)[j],
        decreases a.len() - i,
    {
        if !same_text(a[i].as_str(), b[i].as_str()) {
            assert(texts(a@)[i as int] != texts(b@)[i as int]);
            return false;
        }
        i = i + 1;
    }
    assert(texts(a@) =~= texts(b@));
    true
}

/// An ordered list of output lines.
pub struct Lines {
    items: Vec<String>,
}

impl View for Lines {
    type V = Seq<Seq<char>>;

    closed spec fn view(&self) -> Seq<Seq<char>> {
        texts(self.items@)
    }
}

impl Lines {
    /// No lines.
    pub fn new() -> (res: Lines)
        ensures
            res@ == Seq::<Seq<char>>::empty(),
    {
        let res = Lines { items: Vec::new() };
        assert(res@ =~= Seq::<Seq<char>>::empty());
        res
    }

    /// The lines of a list.
    pub fn of(items: Vec<String>) -> (res: Lines)
        ensures
            res@ == texts(items@),
    {
        Lines { items }
    }

    /// Append a line.
    pub fn add(&mut self, line: String)
        ensures
            final(self)@ == old(self)@.push(line@),
    {
        let ghost before = self.items@;
        self.items.push(line);
        assert(texts(self.items@) =~= texts(before).push(line@));
    }

    /// Append a copy of a line.
    pub fn say(&mut self, line: &str)
        ensures
            final(self)@ == old(self)@.push(line@),
    {
        self.add(line.to_owned());
    }

    /// Append the lines of another list.
    pub fn extend(&mut self, other: &Lines)
        ensures
            final(self)@ == old(self)@ + other@,
    {
        let ghost start = self@;
        let mut i: usize = 0;
        assert(start + other@.take(0) =~= start);
        while i < other.items.len()
            invariant
                i <= other.items@.len(),
                self@ == start + other@.take(i as int),
                start == old(self)@,
            decreases other.items.len() - i,
        {
            self.say(other.items[i].as_str());
            i = i + 1;
            assert(start + other@.take(i as int) =~= (start + other@.take(i - 1)).push(
                other@[i - 1],
            ));
        }
        assert(other@.take(i as int) =~= other@);
    }

    /// The lines as strings.
    pub fn into_strings(self) -> (res: Vec<String>)
        ensures
            texts(res@) == self@,
    {
        self.items
    }

    /// The lines as strings.
    pub fn strings(&self) -> (res: &Vec<String>)
        ensures
            texts(res@) == self@,
    {
        &self.items
    }
}

/// The number that decimal digits denote.
pub open spec fn decimal_value(s: Seq<char>) -> int
    decreases s.len(),
{
    if s.len() == 0 {
        0
    } else {
        decimal_value(s.drop_last()) * 10 + (s.last() as u32 - '0' as u32)
    }
}

/// The decimal notation of a number denotes that number, consists of digits, and has no needless
/// zero in front.
pub proof fn law_decimals_read_back(n: nat)
    ensures
        decimal_value(decimal(n)) == n,
        decimal(n).len() > 0,
        forall|i: int| 0 <= i < decimal(n).len() ==> is_digit(#[trigger] decimal(n)[i]),
        n > 0 ==> decimal(n)[0] != '0',
        n == 0 ==> decimal(n) == seq!['0'],
    decreases n,
{
    if n < 10 {
        let s = decimal(n);
        assert(s.drop_last() =~= Seq::empty());
        assert(decimal_value(s.drop_last()) == 0);
    } else {
        law_decimals_read_back(n / 10);
        let s = decimal(n);
        assert(s.drop_last() =~= decimal(n / 10));
        assert(s[0] == decimal(n / 10)[0]);
    }
}

/// Trimming cuts white space off both ends, all of it, and nothing else.
pub proof fn law_trimming_cuts_only_white_space(s: Seq<char>)
    ensures
        trimmed(s).len() > 0 ==> !is_white(trimmed(s)[0]) && !is_white(trimmed(s).last()),
        exists|i: int, j: int|
            {
                &&& 0 <= i <= j <= s.len()
                &&& trimmed(s) == #[trigger] s.subrange(i, j)
                &&& forall|k: int| 0 <= k < i || j <= k < s.len() ==> is_white(#[trigger] s[k])
            },
        trimmed(s).len() == 0 <==> forall|k: int| 0 <= k < s.len() ==> is_white(#[trigger] s[k]),
        s.len() > 0 && !is_white(s[0]) && !is_white(s.last()) ==> trimmed(s) == s,
{
    let a = trim_start_by(s, Stripped::White);
    let b = trimmed(s);
    lemma_trim_start(s, Stripped::White);
    lemma_trim_end(a, Stripped::White);
    let i = s.len() - a.len();
    let j = i + b.len();
    assert(a =~= s.subrange(i, s.len() as int));
    assert(b =~= s.subrange(i, j));
    assert forall|k: int| 0 <= k < i || j <= k < s.len() implies is_white(#[trigger] s[k]) by {
        if j <= k {
            assert(s[k] == a[k - i]);
        }
    }
    if b.len() > 0 {
        assert(b[0] == a[0]);
        assert(b[0] == s[i]);
    }
}

/// What is cut off the start is of the class, and what is left does not begin with it.
pub proof fn lemma_trim_start(s: Seq<char>, k: Stripped)
    ensures
        trim_start_by(s, k).len() <= s.len(),
        trim_start_by(s, k) == s.subrange(s.len() - trim_start_by(s, k).len(), s.len() as int),
        forall|m: int|
            0 <= m < s.len() - trim_start_by(s, k).len() ==> in_class(k, #[trigger] s[m]),
        trim_start_by(s, k).len() > 0 ==> !in_class(k, trim_start_by(s, k)[0]),
    decreases s.len(),
{
    if s.len() > 0 && in_class(k, s[0]) {
        let rest = s.drop_first();
        lemma_trim_start(rest, k);
        let t = trim_start_by(s, k);
        assert(t =~= s.subrange(s.len() - t.len(), s.len() as int));
        assert forall|m: int| 0 <= m < s.len() - t.len() implies in_class(k, #[trigger] s[m]) by {
            if m > 0 {
                assert(s[m] == rest[m - 1]);
            }
        }
    } else {
        assert(s =~= s.subrange(0, s.len() as int));
    }
}

/// What is cut off the end is of the class, and what is left does not end with it.
pub proof fn lemma_trim_end(s: Seq<char>, k: Stripped)
    ensures
        trim_end_by(s, k).len() <= s.len(),
        trim_end_by(s, k) == s.subrange(0, trim_end_by(s, k).len() as int),
        forall|m: int| trim_end_by(s, k).len() <= m < s.len() ==> in_class(k, #[trigger] s[m]),
        trim_end_by(s, k).len() > 0 ==> !in_class(k, trim_end_by(s, k).last()),
    decreases s.len(),
{
    if s.len() > 0 && in_class(k, s.last()) {
        let rest = s.drop_last();
        lemma_trim_end(rest, k);
        let t = trim_end_by(s, k);
        assert(t =~= s.subrange(0, t.len() as int));
        assert forall|m: int| t.len() <= m < s.len() implies in_class(k, #[trigger] s[m]) by {
            if m < s.len() - 1 {
                assert(s[m] == rest[m]);
            }
        }
    } else {
        assert(s =~= s.subrange(0, s.len() as int));
    }
}

/// Texts with a separator between them.
pub open spec fn joined(pieces: Seq<Seq<char>>, sep: char) -> Seq<char>
    decreases pieces.len(),
{
    if pieces.len() == 0 {
        Seq::empty()
    } else if pieces.len() == 1 {
        pieces[0]
    } else {
        joined(pieces.drop_last(), sep).push(sep) + pieces.last()
    }
}

/// Splitting loses nothing: the pieces with the separator between them are the text, and no piece
/// holds the separator.
pub proof fn law_splitting_loses_nothing(s: Seq<char>, sep: char)
    ensures
        split_on(s, sep).len() > 0,
        joined(split_on(s, sep), sep) == s,
        forall|i: int| 0 <= i < split_on(s, sep).len() ==> !(#[trigger] split_on(s, sep)[i]).contains(sep),
    decreases s.len(),
{
    let all = split_on(s, sep);
    if s.len() > 0 {
        let rest = split_on(s.drop_last(), sep);
        law_splitting_loses_nothing(s.drop_last(), sep);
        if s.last() == sep {
            assert(all.drop_last() =~= rest);
            assert(joined(all, sep) =~= s);
        } else {
            let longer = rest.last().push(s.last());
            assert(all.drop_last() =~= rest.drop_last());
            assert(all.last() == longer);
            assert(joined(all, sep) =~= joined(rest, sep).push(s.last()));
            assert(joined(all, sep) =~= s);
            assert forall|i: int| 0 <= i < all.len() implies !(#[trigger] all[i]).contains(sep) by {
                if i < all.len() - 1 {
                    assert(all[i] == rest[i]);
                } else {
                    assert(!rest[rest.len() - 1].contains(sep));
                    if longer.contains(sep) {
                        let k = choose|k: int| 0 <= k < longer.len() && longer[k] == sep;
                        assert(rest.last()[k] == sep);
                    }
                }
            }
        }
    }
}

/// Hexadecimal text has two digits for each byte, and different bytes have different texts.
pub proof fn law_hex_is_faithful(a: Seq<u8>, b: Seq<u8>)
    ensures
        hex(a).len() == 2 * a.len(),
        hex(a) == hex(b) ==> a == b,
    decreases a.len(),
{
    lemma_hex(a);
    lemma_hex(b);
    if hex(a) == hex(b) && a.len() > 0 {
        let x = hex(a);
        let n = x.len();
        law_hex_is_faithful(a.drop_last(), b.drop_last());
        assert(x.take(n - 2) =~= hex(a.drop_last()));
        assert(x.take(n - 2) =~= hex(b.drop_last()));
        assert(x[n - 2] == hex_digit((a.last() / 16) as nat));
        assert(x[n - 2] == hex_digit((b.last() / 16) as nat));
        assert(x[n - 1] == hex_digit((a.last() % 16) as nat));
        assert(x[n - 1] == hex_digit((b.last() % 16) as nat));
        assert(a.last() == b.last());
        assert(a =~= a.drop_last().push(a.last()));
        assert(b =~= b.drop_last().push(b.last()));
    } else if hex(a) == hex(b) {
        assert(a =~= b);
    }
}

/// Padding keeps the text in front and only adds spaces, up to the width.
pub proof fn law_padding_only_adds_spaces(s: Seq<char>, width: nat)
    ensures
        s.is_prefix_of(padded(s, width)),
        padded(s, width).len() == if s.len() < width {
            width
        } else {
            s.len()
        },
        forall|i: int|
            s.len() <= i < padded(s, width).len() ==> #[trigger] padded(s, width)[i] == ' ',
{
    assert(padded(s, width).subrange(0, s.len() as int) =~= s);
}

/// Bytes are written with the digits 0 to 9 and A to F, the high half of each byte first.
pub proof fn law_hex_digits(bytes: Seq<u8>, i: int)
    requires
        0 <= i < bytes.len(),
    ensures
        hex(bytes).len() == 2 * bytes.len(),
        16 * hex_digit_value(hex(bytes)[2 * i]) + hex_digit_value(hex(bytes)[2 * i + 1])
            == bytes[i],
    decreases bytes.len(),
{
    lemma_hex(bytes);
    let init = bytes.drop_last();
    lemma_hex(init);
    if i < init.len() {
        law_hex_digits(init, i);
        assert(hex(bytes)[2 * i] == hex(init)[2 * i]);
        assert(hex(bytes)[2 * i + 1] == hex(init)[2 * i + 1]);
        assert(init[i] == bytes[i]);
    }
}

/// The value of a hexadecimal digit.
pub open spec fn hex_digit_value(c: char) -> int {
    if '0' <= c <= '9' {
        c as int - '0' as int
    } else if 'A' <= c <= 'F' {
        c as int - 'A' as int + 10
    } else {
        -1
    }
}

/// The bytes of a fingerprint can be read back from it: two digits for each, with colons between.
pub proof fn law_colon_hex_digits(bytes: Seq<u8>, i: int)
    requires
        0 <= i < bytes.len(),
    ensures
        colon_hex(bytes).len() == 3 * bytes.len() - 1,
        16 * hex_digit_value(colon_hex(bytes)[3 * i]) + hex_digit_value(
            colon_hex(bytes)[3 * i + 1],
        ) == bytes[i],
        i + 1 < bytes.len() ==> colon_hex(bytes)[3 * i + 2] == ':',
    decreases bytes.len(),
{
    if bytes.len() == 1 {
        law_hex_digits(bytes, 0);
    } else {
        let init = bytes.drop_last();
        let last = seq![bytes.last()];
        law_hex_digits(last, 0);
        let whole = colon_hex(bytes);
        if i < init.len() {
            law_colon_hex_digits(init, i);
            let front = colon_hex(init);
            assert(whole[3 * i] == front[3 * i]);
            assert(whole[3 * i + 1] == front[3 * i + 1]);
            assert(init[i] == bytes[i]);
            if i + 1 < init.len() {
                assert(whole[3 * i + 2] == front[3 * i + 2]);
            }
        } else {
            law_colon_hex_digits(init, 0);
            assert(whole[3 * i] == hex(last)[0]);
            assert(whole[3 * i + 1] == hex(last)[1]);
        }
    }
}

/// One text comes before another where it ends first, or has the smaller byte where they first
/// differ.
pub proof fn law_texts_are_ordered_by_their_bytes(a: Seq<char>, b: Seq<char>, n: int)
    requires
        0 <= n <= encode_utf8(a).len(),
        n < encode_utf8(b).len(),
        encode_utf8(a).take(n) == encode_utf8(b).take(n),
        n < encode_utf8(a).len() ==> encode_utf8(a)[n] < encode_utf8(b)[n],
    ensures
        text_before(a, b),
        !text_before(b, a),
{
    lemma_bytes_before_skip(encode_utf8(a), encode_utf8(b), n);
    lemma_text_before_total(a, b);
}

/// What follows the last separator grows with what is appended, if that holds no separator.
pub proof fn lemma_split_more(s: Seq<char>, more: Seq<char>, sep: char)
    requires
        !more.contains(sep),
    ensures
        split_on(s, sep).len() > 0,
        split_on(s + more, sep) == split_on(s, sep).drop_last().push(
            split_on(s, sep).last() + more,
        ),
    decreases more.len(),
{
    lemma_split_nonempty(s, sep);
    let pieces = split_on(s, sep);
    if more.len() == 0 {
        assert(s + more =~= s);
        assert(pieces.last() + more =~= pieces.last());
        assert(pieces.drop_last().push(pieces.last()) =~= pieces);
    } else {
        let init = more.drop_last();
        assert(!init.contains(sep)) by {
            if init.contains(sep) {
                let k = choose|k: int| 0 <= k < init.len() && init[k] == sep;
                assert(more[k] == sep);
            }
        }
        lemma_split_more(s, init, sep);
        assert((s + more).drop_last() =~= s + init);
        assert((s + more).last() == more[more.len() - 1]);
        assert(more.contains(more[more.len() - 1]));
        let rest = split_on(s + init, sep);
        assert(rest.drop_last() =~= pieces.drop_last());
        assert(rest.last().push(more.last()) =~= pieces.last() + more);
    }
}

/// The words for a setting.
pub proof fn law_setting_words(b: bool)
    ensures
        bool_word(b) == "true"@ <==> b,
        bool_word(b) == "false"@ <==> !b,
{
    reveal_strlit("true");
    reveal_strlit("false");
    assert("true"@[0] == 't' && "false"@[0] == 'f');
}

} // verus!

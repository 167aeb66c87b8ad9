//! Character-sequence helpers shared by the engine: decimal rendering,
//! zero padding, case mapping, whitespace tokenizing and prefix tests.

use vstd::prelude::*;
use vstd::string::*;

verus! {

/// Decimal digit character for a value below ten.
pub open spec fn digit_char(d: nat) -> char {
    if d == 0 { '0' }
    else if d == 1 { '1' }
    else if d == 2 { '2' }
    else if d == 3 { '3' }
    else if d == 4 { '4' }
    else if d == 5 { '5' }
    else if d == 6 { '6' }
    else if d == 7 { '7' }
    else if d == 8 { '8' }
    else { '9' }
}

/// Decimal rendering of `n`, most significant digit first, no sign,
/// no leading zeros (`0` renders as "0").
pub open spec fn dec_digits(n: nat) -> Seq<char>
    decreases n,
{
    if n < 10 {
        seq![digit_char(n)]
    } else {
        dec_digits(n / 10).push(digit_char(n % 10))
    }
}

/// A run of `n` zero characters.
pub open spec fn zeros(n: nat) -> Seq<char> {
    Seq::new(n, |i: int| '0')
}

/// `n` rendered in decimal and left-padded with zeros to `width` digits;
/// a rendering already `width` digits or longer is left unmodified.
pub open spec fn padded_dec(n: nat, width: nat) -> Seq<char> {
    let d = dec_digits(n);
    if d.len() >= width {
        d
    } else {
        zeros((width - d.len()) as nat) + d
    }
}

/// One-character string for a decimal digit.
fn digit_str(d: usize) -> (r: &'static str)
    requires
        d < 10,
    ensures
        r@ =~= seq![digit_char(d as nat)],
{
    proof {
        reveal_strlit("0");
        reveal_strlit("1");
        reveal_strlit("2");
        reveal_strlit("3");
        reveal_strlit("4");
        reveal_strlit("5");
        reveal_strlit("6");
        reveal_strlit("7");
        reveal_strlit("8");
        reveal_strlit("9");
    }
    if d == 0 { "0" }
    else if d == 1 { "1" }
    else if d == 2 { "2" }
    else if d == 3 { "3" }
    else if d == 4 { "4" }
    else if d == 5 { "5" }
    else if d == 6 { "6" }
    else if d == 7 { "7" }
    else if d == 8 { "8" }
    else { "9" }
}

/// Appends the decimal rendering of `n` to `out`.
fn push_dec(out: &mut String, n: usize)
    ensures
        final(out)@ == old(out)@ + dec_digits(n as nat),
    decreases n,
{
    if n < 10 {
        out.append(digit_str(n));
        assert(out@ =~= old(out)@ + dec_digits(n as nat));
    } else {
        push_dec(out, n / 10);
        out.append(digit_str(n % 10));
        assert(out@ =~= old(out)@ + dec_digits(n as nat));
    }
}

/// Renders `n` in decimal, zero-padded on the left to `width` digits;
/// a rendering already `width` digits or longer is returned unmodified.
pub fn render_padded(n: usize, width: usize) -> (r: String)
    ensures
        r@ == padded_dec(n as nat, width as nat),
{
    let mut digits = String::new();
    push_dec(&mut digits, n);
    let dlen = digits.as_str().unicode_len();
    if dlen >= width {
        assert(digits@ =~= padded_dec(n as nat, width as nat));
        return digits;
    }
    let mut out = String::new();
    let mut i: usize = 0;
    while i < width - dlen
        invariant
            i <= width - dlen,
            dlen == dec_digits(n as nat).len(),
            dlen < width,
            digits@ == dec_digits(n as nat),
            out@ =~= zeros(i as nat),
        decreases width - dlen - i,
    {
        proof {
            reveal_strlit("0");
        }
        out.append("0");
        i += 1;
        assert(out@ =~= zeros(i as nat));
    }
    out.append(digits.as_str());
    assert(out@ =~= padded_dec(n as nat, width as nat));
    out
}

/// The whitespace characters on which the filetype list is split.
pub open spec fn is_space(c: char) -> bool {
    c == ' ' || c == '\t' || c == '\n' || c == '\r'
}

/// ASCII lowercase image of a character; letters outside `A..Z` are kept.
pub open spec fn lower_char(c: char) -> char {
    if 'A' <= c && c <= 'Z' {
        ((c as u32) + 32) as char
    } else {
        c
    }
}

/// ASCII uppercase image of a character; letters outside `a..z` are kept.
pub open spec fn upper_char(c: char) -> char {
    if 'a' <= c && c <= 'z' {
        ((c as u32) - 32) as char
    } else {
        c
    }
}

/// Characterwise ASCII lowercase rendering of a text.
pub open spec fn lower_seq(s: Seq<char>) -> Seq<char> {
    s.map_values(|c: char| lower_char(c))
}

/// Characterwise ASCII uppercase rendering of a text.
pub open spec fn upper_seq(s: Seq<char>) -> Seq<char> {
    s.map_values(|c: char| upper_char(c))
}

/// Index just past the whitespace-free run that starts at `i`.
pub open spec fn tok_end(s: Seq<char>, i: int) -> int
    decreases s.len() - i,
{
    if i < 0 || i >= s.len() || is_space(s[i]) {
        i
    } else {
        tok_end(s, i + 1)
    }
}

/// The whitespace-separated tokens of `s` at or after position `i`.
pub open spec fn tokens_from(s: Seq<char>, i: int) -> Seq<Seq<char>>
    decreases s.len() - i,
    via tokens_from_decreases
{
    if i < 0 || i >= s.len() {
        Seq::empty()
    } else if is_space(s[i]) {
        tokens_from(s, i + 1)
    } else {
        seq![s.subrange(i, tok_end(s, i))] + tokens_from(s, tok_end(s, i))
    }
}

#[via_fn]
proof fn tokens_from_decreases(s: Seq<char>, i: int) {
    if 0 <= i < s.len() && !is_space(s[i]) {
        lemma_tok_end_bounds(s, i);
    }
}

/// The whitespace-separated tokens of a text, in order.
pub open spec fn tokens_of(s: Seq<char>) -> Seq<Seq<char>> {
    tokens_from(s, 0)
}

/// `tok_end` moves strictly forward and stays within the text.
proof fn lemma_tok_end_bounds(s: Seq<char>, i: int)
    requires
        0 <= i < s.len(),
        !is_space(s[i]),
    ensures
        i < tok_end(s, i) <= s.len(),
    decreases s.len() - i,
{
    if i + 1 < s.len() && !is_space(s[i + 1]) {
        lemma_tok_end_bounds(s, i + 1);
    } else {
        assert(tok_end(s, i + 1) == i + 1);
    }
}

/// Whether `c` is one of the whitespace characters the tokenizer splits on.
fn is_space_char(c: char) -> (r: bool)
    ensures
        r == is_space(c),
{
    c == ' ' || c == '\t' || c == '\n' || c == '\r'
}

/// Views of a vector of strings.
pub open spec fn string_views(v: Seq<String>) -> Seq<Seq<char>> {
    v.map_values(|s: String| s@)
}

/// Splits `s` into its whitespace-separated tokens.
pub fn tokenize(s: &str) -> (r: Vec<String>)
    ensures
        string_views(r@) == tokens_of(s@),
{
    let n = s.unicode_len();
    let mut out: Vec<String> = Vec::new();
    let mut i: usize = 0;
    while i < n
        invariant
            i <= n,
            n == s@.len(),
            tokens_of(s@) =~= string_views(out@) + tokens_from(s@, i as int),
        decreases n - i,
    {
        let c = s.get_char(i);
        if is_space_char(c) {
            i += 1;
        } else {
            proof {
                lemma_tok_end_bounds(s@, i as int);
            }
            let j = token_end(s, i);
            let t = s.substring_char(i, j).to_owned();
            let ghost prev = out@;
            out.push(t);
            assert(string_views(out@) =~= string_views(prev) + seq![s@.subrange(i as int, j as int)]);
            i = j;
        }
    }
    assert(string_views(out@) =~= tokens_of(s@));
    out
}

/// One-character lowercase string for an ASCII capital letter.
fn lower_letter_str(c: char) -> (r: &'static str)
    requires
        'A' <= c && c <= 'Z',
    ensures
        r@ =~= seq![lower_char(c)],
{
    proof {
        reveal_strlit("a"); reveal_strlit("b"); reveal_strlit("c");
        reveal_strlit("d"); reveal_strlit("e"); reveal_strlit("f");
        reveal_strlit("g"); reveal_strlit("h"); reveal_strlit("i");
        reveal_strlit("j"); reveal_strlit("k"); reveal_strlit("l");
        reveal_strlit("m"); reveal_strlit("n"); reveal_strlit("o");
        reveal_strlit("p"); reveal_strlit("q"); reveal_strlit("r");
        reveal_strlit("s"); reveal_strlit("t"); reveal_strlit("u");
        reveal_strlit("v"); reveal_strlit("w"); reveal_strlit("x");
        reveal_strlit("y"); reveal_strlit("z");
    }
    match c {
        'A' => "a", 'B' => "b", 'C' => "c", 'D' => "d", 'E' => "e",
        'F' => "f", 'G' => "g", 'H' => "h", 'I' => "i", 'J' => "j",
        'K' => "k", 'L' => "l", 'M' => "m", 'N' => "n", 'O' => "o",
        'P' => "p", 'Q' => "q", 'R' => "r", 'S' => "s", 'T' => "t",
        'U' => "u", 'V' => "v", 'W' => "w", 'X' => "x", 'Y' => "y",
        _ => "z",
    }
}

/// One-character uppercase string for an ASCII small letter.
fn upper_letter_str(c: char) -> (r: &'static str)
    requires
        'a' <= c && c <= 'z',
    ensures
        r@ =~= seq![upper_char(c)],
{
    proof {
        reveal_strlit("A"); reveal_strlit("B"); reveal_strlit("C");
        reveal_strlit("D"); reveal_strlit("E"); reveal_strlit("F");
        reveal_strlit("G"); reveal_strlit("H"); reveal_strlit("I");
        reveal_strlit("J"); reveal_strlit("K"); reveal_strlit("L");
        reveal_strlit("M"); reveal_strlit("N"); reveal_strlit("O");
        reveal_strlit("P"); reveal_strlit("Q"); reveal_strlit("R");
        reveal_strlit("S"); reveal_strlit("T"); reveal_strlit("U");
        reveal_strlit("V"); reveal_strlit("W"); reveal_strlit("X");
        reveal_strlit("Y"); reveal_strlit("Z");
    }
    match c {
        'a' => "A", 'b' => "B", 'c' => "C", 'd' => "D", 'e' => "E",
        'f' => "F", 'g' => "G", 'h' => "H", 'i' => "I", 'j' => "J",
        'k' => "K", 'l' => "L", 'm' => "M", 'n' => "N", 'o' => "O",
        'p' => "P", 'q' => "Q", 'r' => "R", 's' => "S", 't' => "T",
        'u' => "U", 'v' => "V", 'w' => "W", 'x' => "X", 'y' => "Y",
        _ => "Z",
    }
}

/// ASCII lowercase rendering of a text; other characters are kept.
pub fn to_lower_text(s: &str) -> (r: String)
    ensures
        r@ == lower_seq(s@),
{
    let n = s.unicode_len();
    let mut out = String::new();
    let mut i: usize = 0;
    while i < n
        invariant
            i <= n,
            n == s@.len(),
            out@ =~= lower_seq(s@.subrange(0, i as int)),
        decreases n - i,
    {
        let c = s.get_char(i);
        if 'A' <= c && c <= 'Z' {
            out.append(lower_letter_str(c));
        } else {
            out.append(s.substring_char(i, i + 1));
        }
        i += 1;
        assert(out@ =~= lower_seq(s@.subrange(0, i as int)));
    }
    assert(s@.subrange(0, n as int) =~= s@);
    out
}

/// ASCII uppercase rendering of a text; other characters are kept.
pub fn to_upper_text(s: &str) -> (r: String)
    ensures
        r@ == upper_seq(s@),
{
    let n = s.unicode_len();
    let mut out = String::new();
    let mut i: usize = 0;
    while i < n
        invariant
            i <= n,
            n == s@.len(),
            out@ =~= upper_seq(s@.subrange(0, i as int)),
        decreases n - i,
    {
        let c = s.get_char(i);
        if 'a' <= c && c <= 'z' {
            out.append(upper_letter_str(c));
        } else {
            out.append(s.substring_char(i, i + 1));
        }
        i += 1;
        assert(out@ =~= upper_seq(s@.subrange(0, i as int)));
    }
    assert(s@.subrange(0, n as int) =~= s@);
    out
}

/// The text with every space replaced by an underscore.
pub open spec fn underscored(s: Seq<char>) -> Seq<char> {
    s.map_values(|c: char| if c == ' ' { '_' } else { c })
}

/// Replaces every space in `s` by an underscore.
pub fn replace_spaces(s: &str) -> (r: String)
    ensures
        r@ == underscored(s@),
{
    let n = s.unicode_len();
    let mut out = String::new();
    let mut i: usize = 0;
    while i < n
        invariant
            i <= n,
            n == s@.len(),
            out@ =~= underscored(s@.subrange(0, i as int)),
        decreases n - i,
    {
        proof {
            reveal_strlit("_");
        }
        let c = s.get_char(i);
        if c == ' ' {
            out.append("_");
        } else {
            out.append(s.substring_char(i, i + 1));
        }
        i += 1;
        assert(out@ =~= underscored(s@.subrange(0, i as int)));
    }
    assert(s@.subrange(0, n as int) =~= s@);
    out
}

/// Whether `c` occurs in `s`.
pub open spec fn seq_contains_char(s: Seq<char>, c: char) -> bool {
    exists|i: int| 0 <= i < s.len() && s[i] == c
}

/// Tests whether the character `c` occurs in `s`.
pub fn contains_char(s: &str, c: char) -> (r: bool)
    ensures
        r == seq_contains_char(s@, c),
{
    let n = s.unicode_len();
    let mut i: usize = 0;
    while i < n
        invariant
            i <= n,
            n == s@.len(),
            forall|k: int| 0 <= k < i ==> s@[k] != c,
        decreases n - i,
    {
        if s.get_char(i) == c {
            return true;
        }
        i += 1;
    }
    false
}

/// Whether two slashes stand side by side somewhere in `s`.
pub open spec fn has_double_slash(s: Seq<char>) -> bool {
    exists|i: int| 0 <= i && i + 1 < s.len() && #[trigger] s[i] == '/' && s[i + 1] == '/'
}

/// Tests whether `s` holds two adjacent slashes.
pub fn contains_double_slash(s: &str) -> (r: bool)
    ensures
        r == has_double_slash(s@),
{
    let n = s.unicode_len();
    if n < 2 {
        return false;
    }
    let mut i: usize = 0;
    while i + 1 < n
        invariant
            i + 1 <= n,
            n == s@.len(),
            forall|k: int| 0 <= k && k + 1 < i + 1 ==> !(#[trigger] s@[k] == '/' && s@[k + 1] == '/'),
        decreases n - i,
    {
        if s.get_char(i) == '/' && s.get_char(i + 1) == '/' {
            return true;
        }
        i += 1;
    }
    false
}

/// Tests whether `prefix` is a prefix of `s`.
pub fn str_starts_with(s: &str, prefix: &str) -> (r: bool)
    ensures
        r == prefix@.is_prefix_of(s@),
{
    let n = s.unicode_len();
    let p = prefix.unicode_len();
    if p > n {
        assert(!prefix@.is_prefix_of(s@));
        return false;
    }
    let mut i: usize = 0;
    while i < p
        invariant
            i <= p <= n,
            n == s@.len(),
            p == prefix@.len(),
            forall|k: int| 0 <= k < i ==> s@[k] == prefix@[k],
        decreases p - i,
    {
        if s.get_char(i) != prefix.get_char(i) {
            assert(s@.subrange(0, p as int)[i as int] != prefix@[i as int]);
            assert(!prefix@.is_prefix_of(s@));
            return false;
        }
        i += 1;
    }
    assert(prefix@ =~= s@.subrange(0, p as int));
    true
}

/// Index of the last dot in `s`, or `-1` when no dot occurs.
pub open spec fn last_dot_index(s: Seq<char>) -> int
    decreases s.len(),
{
    if s.len() == 0 {
        -1
    } else if s.last() == '.' {
        s.len() - 1
    } else {
        last_dot_index(s.drop_last())
    }
}

/// The last dot of a text is a dot, and nothing after it is one.
pub proof fn lemma_last_dot_characterises(s: Seq<char>)
    ensures
        -1 <= last_dot_index(s) < s.len(),
        last_dot_index(s) >= 0 ==> s[last_dot_index(s)] == '.',
        forall|j: int| last_dot_index(s) < j < s.len() ==> s[j] != '.',
    decreases s.len(),
{
    if s.len() > 0 && s.last() != '.' {
        lemma_last_dot_characterises(s.drop_last());
        assert(forall|j: int| 0 <= j < s.len() - 1 ==> s[j] == s.drop_last()[j]);
    }
}

/// Finds the index of the last dot in `name`, if any.
pub fn find_last_dot(name: &str) -> (r: Option<usize>)
    ensures
        match r {
            Some(i) => i == last_dot_index(name@),
            None => last_dot_index(name@) == -1,
        },
{
    let n = name.unicode_len();
    let mut found: Option<usize> = None;
    let mut i: usize = 0;
    while i < n
        invariant
            i <= n,
            n == name@.len(),
            match found {
                Some(d) => d < i && d == last_dot_index(name@.subrange(0, i as int)),
                None => last_dot_index(name@.subrange(0, i as int)) == -1,
            },
        decreases n - i,
    {
        let ghost prefix = name@.subrange(0, i as int);
        let c = name.get_char(i);
        if c == '.' {
            found = Some(i);
        }
        i += 1;
        proof {
            let cur = name@.subrange(0, i as int);
            assert(cur.drop_last() =~= prefix);
            assert(cur.last() == name@[i - 1]);
        }
    }
    assert(name@.subrange(0, n as int) =~= name@);
    found
}

/// Scans from `i` to the end of the whitespace-free run that starts there.
fn token_end(s: &str, i: usize) -> (j: usize)
    requires
        i < s@.len(),
        !is_space(s@[i as int]),
    ensures
        j == tok_end(s@, i as int),
        i < j <= s@.len(),
{
    proof {
        lemma_tok_end_bounds(s@, i as int);
    }
    let n = s.unicode_len();
    let mut j: usize = i + 1;
    while j < n && !is_space_char(s.get_char(j))
        invariant
            i < j <= n,
            n == s@.len(),
            tok_end(s@, i as int) == tok_end(s@, j as int),
        decreases n - j,
    {
        j += 1;
    }
    j
}

} // verus!

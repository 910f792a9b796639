//! Strings: concatenation, comparison, searching, numbers as text.
use vstd::prelude::*;
use vstd::string::*;

verus! {

broadcast use vstd::utf8::encode_utf8_decode_utf8;

// ── Models ───────────────────────────────────────────────────────────────────

/// The characters of each string of a list.
pub open spec fn views(v: Seq<String>) -> Seq<Seq<char>> {
    v.map_values(|s: String| s@)
}

/// The characters of each string slice of a list.
pub open spec fn str_views(v: Seq<&str>) -> Seq<Seq<char>> {
    v.map_values(|s: &str| s@)
}

/// The pieces in order, with `sep` between neighbours.
pub open spec fn joined(parts: Seq<Seq<char>>, sep: Seq<char>) -> Seq<char>
    decreases parts.len(),
{
    if parts.len() == 0 {
        Seq::empty()
    } else if parts.len() == 1 {
        parts[0]
    } else {
        joined(parts.drop_last(), sep) + sep + parts.last()
    }
}

/// `n` copies of one character.
pub open spec fn repeated(c: char, n: nat) -> Seq<char> {
    Seq::new(n, |i: int| c)
}

/// The character of one decimal digit.
pub open spec fn digit_char(d: nat) -> char {
    if d == 0 {
        '0'
    } else if d == 1 {
        '1'
    } else if d == 2 {
        '2'
    } else if d == 3 {
        '3'
    } else if d == 4 {
        '4'
    } else if d == 5 {
        '5'
    } else if d == 6 {
        '6'
    } else if d == 7 {
        '7'
    } else if d == 8 {
        '8'
    } else {
        '9'
    }
}

/// A number in decimal, without leading zeros.
pub open spec fn decimal(n: nat) -> Seq<char>
    decreases n,
{
    if n < 10 {
        seq![digit_char(n)]
    } else {
        decimal(n / 10).push(digit_char(n % 10))
    }
}

/// An integer in decimal, with a minus sign where it is negative.
pub open spec fn decimal_int(n: int) -> Seq<char> {
    if n < 0 {
        seq!['-'] + decimal((-n) as nat)
    } else {
        decimal(n as nat)
    }
}

/// Whether every character is a decimal digit.
pub open spec fn all_digits(s: Seq<char>) -> bool {
    forall|i: int| 0 <= i < s.len() ==> '0' <= #[trigger] s[i] <= '9'
}

/// The number that a run of decimal digits writes.
pub open spec fn digits_value(s: Seq<char>) -> nat
    decreases s.len(),
{
    if s.len() == 0 {
        0
    } else {
        digits_value(s.drop_last()) * 10 + (s.last() as u32 - '0' as u32) as nat
    }
}

/// The digits of an unsigned literal: the text behind one optional plus sign.
pub open spec fn unsigned_digits(s: Seq<char>) -> Seq<char> {
    if s.len() > 0 && s[0] == '+' {
        s.skip(1)
    } else {
        s
    }
}

/// The 64-bit number that a literal writes: one optional plus sign, then at
/// least one digit and nothing but digits.
pub open spec fn unsigned_value(s: Seq<char>) -> Option<u64> {
    let digits = unsigned_digits(s);
    if digits.len() > 0 && all_digits(digits) && digits_value(digits) <= u64::MAX {
        Some(digits_value(digits) as u64)
    } else {
        None
    }
}

/// Whether `part` stands in `s` at position `i`.
pub open spec fn occurs_at(s: Seq<char>, part: Seq<char>, i: int) -> bool {
    0 <= i && i + part.len() <= s.len() && s.subrange(i, i + part.len()) == part
}

/// Whether `part` stands anywhere in `s`.
pub open spec fn occurs_in(s: Seq<char>, part: Seq<char>) -> bool {
    exists|i: int| occurs_at(s, part, i)
}

/// The first position of a character at `from` or behind.
pub open spec fn position(s: Seq<char>, c: char, from: int) -> Option<int>
    decreases s.len() - from,
{
    if from >= s.len() {
        None
    } else if s[from] == c {
        Some(from)
    } else {
        position(s, c, from + 1)
    }
}

/// Whether one text stands before another, or is the same: the first characters
/// in which they differ decide, and a shorter text stands before its extensions.
pub open spec fn text_le(a: Seq<char>, b: Seq<char>) -> bool
    decreases a.len(),
{
    if a.len() == 0 {
        true
    } else if b.len() == 0 {
        false
    } else if a[0] == b[0] {
        text_le(a.skip(1), b.skip(1))
    } else {
        a[0] < b[0]
    }
}

/// Whether the texts stand in ascending order.
pub open spec fn ascending(texts: Seq<Seq<char>>) -> bool {
    forall|i: int, j: int| 0 <= i < j < texts.len() ==> text_le(#[trigger] texts[i], #[trigger] texts[j])
}

/// Whether the texts stand in ascending order, each once.
pub open spec fn strictly_ascending(texts: Seq<Seq<char>>) -> bool {
    forall|i: int, j: int|
        0 <= i < j < texts.len() ==> text_le(#[trigger] texts[i], #[trigger] texts[j]) && texts[i]
            != texts[j]
}

/// The pieces of `s` between the occurrences of `sep`, from `start` on, where
/// occurrences are looked for at `at` and behind.
pub open spec fn pieces(s: Seq<char>, sep: Seq<char>, start: int, at: int) -> Seq<Seq<char>>
    decreases s.len() - at,
{
    if sep.len() == 0 || at + sep.len() > s.len() {
        seq![s.skip(start)]
    } else if occurs_at(s, sep, at) {
        seq![s.subrange(start, at)] + pieces(s, sep, at + sep.len(), at + sep.len())
    } else {
        pieces(s, sep, start, at + 1)
    }
}

/// The pieces of `s` between the occurrences of `sep`.
pub open spec fn split(s: Seq<char>, sep: Seq<char>) -> Seq<Seq<char>> {
    pieces(s, sep, 0, 0)
}

// ── Concatenation ────────────────────────────────────────────────────────────

pub fn cat2(a: &str, b: &str) -> (r: String)
    ensures
        r@ == a@ + b@,
{
    let mut s = a.to_owned();
    s.append(b);
    s
}

pub fn cat3(a: &str, b: &str, c: &str) -> (r: String)
    ensures
        r@ == a@ + b@ + c@,
{
    let mut s = cat2(a, b);
    s.append(c);
    s
}

pub fn cat4(a: &str, b: &str, c: &str, d: &str) -> (r: String)
    ensures
        r@ == a@ + b@ + c@ + d@,
{
    let mut s = cat3(a, b, c);
    s.append(d);
    s
}

pub fn cat5(a: &str, b: &str, c: &str, d: &str, e: &str) -> (r: String)
    ensures
        r@ == a@ + b@ + c@ + d@ + e@,
{
    let mut s = cat4(a, b, c, d);
    s.append(e);
    s
}

pub fn cat6(a: &str, b: &str, c: &str, d: &str, e: &str, f: &str) -> (r: String)
    ensures
        r@ == a@ + b@ + c@ + d@ + e@ + f@,
{
    let mut s = cat5(a, b, c, d, e);
    s.append(f);
    s
}

pub fn cat7(a: &str, b: &str, c: &str, d: &str, e: &str, f: &str, g: &str) -> (r: String)
    ensures
        r@ == a@ + b@ + c@ + d@ + e@ + f@ + g@,
{
    let mut s = cat6(a, b, c, d, e, f);
    s.append(g);
    s
}

/// Appends a string to a list.
pub fn push_text(out: &mut Vec<String>, s: String)
    ensures
        views(final(out)@) == views(old(out)@).push(s@),
{
    out.push(s);
    assert(views(out@) == views(old(out)@).push(s@));
}

/// Appends the strings of one list to another.
pub fn push_texts(out: &mut Vec<String>, more: Vec<String>)
    ensures
        views(final(out)@) == views(old(out)@) + views(more@),
{
    let mut rest = more;
    out.append(&mut rest);
    assert(views(out@) == views(old(out)@) + views(more@));
}

/// A list of one string.
pub fn texts1(a: String) -> (r: Vec<String>)
    ensures
        views(r@) == seq![a@],
{
    let mut out: Vec<String> = Vec::new();
    push_text(&mut out, a);
    assert(views(out@) == seq![a@]);
    out
}

/// A list of two strings.
pub fn texts2(a: String, b: String) -> (r: Vec<String>)
    ensures
        views(r@) == seq![a@, b@],
{
    let mut out = texts1(a);
    push_text(&mut out, b);
    assert(views(out@) == seq![a@, b@]);
    out
}

/// A list of three strings.
pub fn texts3(a: String, b: String, c: String) -> (r: Vec<String>)
    ensures
        views(r@) == seq![a@, b@, c@],
{
    let mut out = texts2(a, b);
    push_text(&mut out, c);
    assert(views(out@) == seq![a@, b@, c@]);
    out
}

/// The strings of `parts` with `sep` between neighbours.
pub fn join(parts: &[String], sep: &str) -> (r: String)
    ensures
        r@ == joined(views(parts@), sep@),
{
    let n: usize = parts.len();
    if n == 0 {
        return String::new();
    }
    let mut out = parts[0].clone();
    assert(views(parts@).take(1)[0] == parts@[0]@);
    let mut i: usize = 1;
    while i < n
        invariant
            1 <= i <= n,
            n == parts@.len(),
            out@ == joined(views(parts@).take(i as int), sep@),
        decreases n - i,
    {
        let ghost longer = views(parts@).take(i + 1);
        assert(longer.drop_last() == views(parts@).take(i as int));
        assert(longer.last() == parts@[i as int]@);
        out.append(sep);
        out.append(parts[i].as_str());
        i = i + 1;
    }
    assert(views(parts@).take(n as int) == views(parts@));
    out
}

// ── Quoting ──────────────────────────────────────────────────────────────────

/// A text in double quotes, with its special characters escaped, as the `Debug`
/// format of `str` writes it.
pub uninterp spec fn debug_text(s: Seq<char>) -> Seq<char>;

/// Formats a string slice with std's `Debug`.
#[verifier::external_body]
pub(crate) fn debug_str(s: &str) -> (r: String)
    ensures
        r@ == debug_text(s@),
{
    format!("{:?}", s)
}

/// A text in lower case, as std's `str::to_lowercase` gives it.
pub uninterp spec fn lowercase(s: Seq<char>) -> Seq<char>;

/// The lower-case form of one ASCII character.
pub open spec fn ascii_lower(c: char) -> char {
    if 'A' <= c <= 'Z' {
        (c as u8 + 32) as u8 as char
    } else {
        c
    }
}

/// Calls std's `str::to_lowercase`. Besides the name of its result: of an ASCII
/// text the capital letters become small ones, and nothing else changes.
#[verifier::external_body]
pub(crate) fn to_lowercase(s: &str) -> (r: String)
    ensures
        r@ == lowercase(s@),
        is_ascii(s) ==> r@ == s@.map_values(|c: char| ascii_lower(c)),
{
    s.to_lowercase()
}

// ── Comparison and search ────────────────────────────────────────────────────

/// Whether two strings hold the same characters.
pub fn same(a: &str, b: &str) -> (r: bool)
    ensures
        r == (a@ == b@),
{
    let x = a.as_bytes();
    let y = b.as_bytes();
    proof {
        assert(vstd::utf8::decode_utf8(vstd::utf8::encode_utf8(a@)) == a@);
        assert(vstd::utf8::decode_utf8(vstd::utf8::encode_utf8(b@)) == b@);
    }
    if x.len() != y.len() {
        return false;
    }
    let n: usize = x.len();
    let mut i: usize = 0;
    while i < n
        invariant
            n == x@.len() == y@.len(),
            i <= n,
            x@ == vstd::utf8::encode_utf8(a@),
            y@ == vstd::utf8::encode_utf8(b@),
            forall|k: int| 0 <= k < i ==> x@[k] == y@[k],
        decreases n - i,
    {
        if x[i] != y[i] {
            assert(x@[i as int] != y@[i as int]);
            return false;
        }
        i = i + 1;
    }
    assert(x@ == y@);
    true
}

/// Whether `word` is one of the strings of `list`.
pub fn has_string(list: &[String], word: &str) -> (r: bool)
    ensures
        r == views(list@).contains(word@),
{
    let n: usize = list.len();
    let mut i: usize = 0;
    while i < n
        invariant
            n == list@.len(),
            i <= n,
            forall|k: int| 0 <= k < i ==> (#[trigger] list@[k])@ != word@,
        decreases n - i,
    {
        if same(list[i].as_str(), word) {
            assert(views(list@)[i as int] == word@);
            return true;
        }
        i = i + 1;
    }
    proof {
        if views(list@).contains(word@) {
            let k = choose|k: int| 0 <= k < views(list@).len() && views(list@)[k] == word@;
            assert(list@[k]@ == word@);
        }
    }
    false
}

/// Whether `word` is one of the string slices of `list`.
pub fn has_str(list: &Vec<&str>, word: &str) -> (r: bool)
    ensures
        r == str_views(list@).contains(word@),
{
    let n: usize = list.len();
    let mut i: usize = 0;
    while i < n
        invariant
            n == list@.len(),
            i <= n,
            forall|k: int| 0 <= k < i ==> (#[trigger] list@[k])@ != word@,
        decreases n - i,
    {
        if same(list[i], word) {
            assert(str_views(list@)[i as int] == word@);
            return true;
        }
        i = i + 1;
    }
    proof {
        if str_views(list@).contains(word@) {
            let k = choose|k: int| 0 <= k < str_views(list@).len() && str_views(list@)[k] == word@;
            assert(list@[k]@ == word@);
        }
    }
    false
}

/// The characters of a string, one by one.
pub fn to_chars(s: &str) -> (r: Vec<char>)
    ensures
        r@ == s@,
{
    let mut out: Vec<char> = Vec::new();
    for c in it: s.chars()
        invariant
            it.seq() == s@,
            out@ == s@.take(it.index()),
    {
        out.push(c);
        assert(out@ == s@.take(it.index() + 1));
    }
    assert(s@.take(s@.len() as int) == s@);
    out
}

/// Whether the characters of `part` stand in `s` at position `at`.
fn chars_at(s: &Vec<char>, part: &Vec<char>, at: usize) -> (r: bool)
    requires
        at <= s@.len(),
    ensures
        r == occurs_at(s@, part@, at as int),
{
    if part.len() > s.len() - at {
        return false;
    }
    let n: usize = part.len();
    let m: usize = s.len();
    let mut k: usize = 0;
    while k < n
        invariant
            k <= n,
            n == part@.len(),
            m == s@.len(),
            at + n <= m,
            forall|j: int| 0 <= j < k ==> s@[at + j] == part@[j],
        decreases n - k,
    {
        if s[at + k] != part[k] {
            assert(s@.subrange(at as int, at + n)[k as int] != part@[k as int]);
            return false;
        }
        k = k + 1;
    }
    assert(s@.subrange(at as int, at + n) == part@);
    true
}

/// Whether `s` begins with `prefix`.
pub fn starts_with(s: &str, prefix: &str) -> (r: bool)
    ensures
        r == occurs_at(s@, prefix@, 0),
{
    let a = to_chars(s);
    let b = to_chars(prefix);
    chars_at(&a, &b, 0)
}

/// Whether `part` stands anywhere in `s`.
pub fn contains(s: &str, part: &str) -> (r: bool)
    ensures
        r == occurs_in(s@, part@),
{
    let a = to_chars(s);
    let b = to_chars(part);
    let n: usize = a.len();
    let mut i: usize = 0;
    loop
        invariant
            n == a@.len(),
            i <= n,
            a@ == s@,
            b@ == part@,
            forall|k: int| 0 <= k < i ==> !occurs_at(s@, part@, k),
        decreases n - i,
    {
        if chars_at(&a, &b, i) {
            return true;
        }
        if i == n {
            assert forall|k: int| !occurs_at(s@, part@, k) by {
                if k > n {
                    assert(k + part@.len() > s@.len());
                }
            }
            return false;
        }
        i = i + 1;
    }
}

/// The first position of `wanted` in `s`, counted in characters.
pub fn find_char(s: &str, wanted: char) -> (r: Option<usize>)
    ensures
        match r {
            Some(i) => position(s@, wanted, 0) == Some(i as int) && i < s@.len() && s@.contains(wanted),
            None => position(s@, wanted, 0) is None && !s@.contains(wanted),
        },
{
    let a = to_chars(s);
    let n: usize = a.len();
    let mut i: usize = 0;
    while i < n
        invariant
            n == a@.len(),
            i <= n,
            a@ == s@,
            forall|k: int| 0 <= k < i ==> a@[k] != wanted,
            position(s@, wanted, 0) == position(s@, wanted, i as int),
        decreases n - i,
    {
        if a[i] == wanted {
            return Some(i);
        }
        i = i + 1;
    }
    None
}

/// A line without the carriage return at its end.
pub open spec fn without_return(line: Seq<char>) -> Seq<char> {
    if line.len() > 0 && line.last() == '\r' {
        line.drop_last()
    } else {
        line
    }
}

/// The lines of the first `n` of some pieces between line feeds. What stands
/// behind the last line feed is a line only where it is not empty.
pub open spec fn lines_in(parts: Seq<Seq<char>>, n: nat) -> Seq<Seq<char>>
    decreases n,
{
    if n == 0 || n > parts.len() {
        Seq::empty()
    } else {
        let before = lines_in(parts, (n - 1) as nat);
        if n < parts.len() {
            before.push(without_return(parts[n - 1]))
        } else if parts[n - 1].len() > 0 {
            before.push(parts[n - 1])
        } else {
            before
        }
    }
}

/// The lines of a text.
pub open spec fn lines_of(s: Seq<char>) -> Seq<Seq<char>> {
    lines_in(split(s, "\n"@), split(s, "\n"@).len())
}

/// The lines of a text.
pub fn split_lines<'a>(s: &'a str) -> (r: Vec<&'a str>)
    ensures
        str_views(r@) == lines_of(s@),
{
    proof {
        reveal_strlit("\n");
    }
    let parts = split_text(s, "\n");
    let ghost model = split(s@, "\n"@);
    let n: usize = parts.len();
    let mut out: Vec<&'a str> = Vec::new();
    let mut i: usize = 0;
    assert(str_views(out@) == Seq::<Seq<char>>::empty());
    while i < n
        invariant
            i <= n,
            n == parts@.len(),
            model == str_views(parts@),
            str_views(out@) == lines_in(model, i as nat),
        decreases n - i,
    {
        let ghost before = out@;
        let part = parts[i];
        assert(model[i as int] == part@);
        let len: usize = part.unicode_len();
        if i + 1 < n {
            let line = if len > 0 && part.get_char(len - 1) == '\r' {
                part.substring_char(0, len - 1)
            } else {
                part
            };
            assert(line@ == without_return(part@));
            out.push(line);
            assert(str_views(out@) == str_views(before).push(line@));
        } else if len > 0 {
            out.push(part);
            assert(str_views(out@) == str_views(before).push(part@));
        }
        i = i + 1;
    }
    out
}

/// The pieces of `s` between the occurrences of `sep`.
pub fn split_text<'a>(s: &'a str, sep: &str) -> (r: Vec<&'a str>)
    requires
        sep@.len() > 0,
    ensures
        str_views(r@) == split(s@, sep@),
{
    let chars = to_chars(s);
    let mark = to_chars(sep);
    let n: usize = chars.len();
    let m: usize = mark.len();
    let mut out: Vec<&'a str> = Vec::new();
    let mut start: usize = 0;
    let mut at: usize = 0;
    assert(str_views(out@) == Seq::<Seq<char>>::empty());
    while at < n && m <= n - at
        invariant
            start <= at <= n,
            n == chars@.len(),
            m == mark@.len(),
            m > 0,
            chars@ == s@,
            mark@ == sep@,
            split(s@, sep@) == str_views(out@) + pieces(s@, sep@, start as int, at as int),
        decreases n - at,
    {
        if chars_at(&chars, &mark, at) {
            let ghost before = out@;
            let piece = s.substring_char(start, at);
            out.push(piece);
            assert(str_views(out@) == str_views(before).push(piece@));
            at = at + m;
            start = at;
        } else {
            at = at + 1;
        }
    }
    let ghost before = out@;
    let last = s.substring_char(start, n);
    out.push(last);
    assert(last@ == s@.skip(start as int));
    assert(str_views(out@) == str_views(before).push(last@));
    out
}

// ── Numbers ──────────────────────────────────────────────────────────────────

/// One decimal digit as text.
fn digit_text(d: u64) -> (r: &'static str)
    requires
        d < 10,
    ensures
        r@ == seq![digit_char(d as nat)],
{
    proof {
        reveal_strlit("0");
        reveal_strlit("1");
        reveal_strlit("2");
        reveal_strlit("3");
        reveal_strlit("4");
        reveal_strlit("5");
        reveal_strlit("6");
        reveal_strlit("7");
        reveal_strlit("8");
        reveal_strlit("9");
    }
    if d == 0 {
        "0"
    } else if d == 1 {
        "1"
    } else if d == 2 {
        "2"
    } else if d == 3 {
        "3"
    } else if d == 4 {
        "4"
    } else if d == 5 {
        "5"
    } else if d == 6 {
        "6"
    } else if d == 7 {
        "7"
    } else if d == 8 {
        "8"
    } else {
        "9"
    }
}

/// A number in decimal.
pub fn decimal_text(n: u64) -> (r: String)
    ensures
        r@ == decimal(n as nat),
    decreases n,
{
    if n < 10 {
        digit_text(n).to_owned()
    } else {
        let mut s = decimal_text(n / 10);
        s.append(digit_text(n % 10));
        s
    }
}

/// A number of up to 128 bits in decimal.
pub fn decimal_wide(n: u128) -> (r: String)
    ensures
        r@ == decimal(n as nat),
    decreases n,
{
    if n < 10 {
        digit_text(n as u64).to_owned()
    } else {
        let mut s = decimal_wide(n / 10);
        s.append(digit_text((n % 10) as u64));
        s
    }
}

/// A signed number in decimal.
pub fn decimal_int_text(n: i64) -> (r: String)
    ensures
        r@ == decimal_int(n as int),
{
    if n == i64::MIN {
        let digits = decimal_text(9223372036854775808);
        proof {
            reveal_strlit("-");
        }
        cat2("-", digits.as_str())
    } else if n < 0 {
        let digits = decimal_text((-n) as u64);
        proof {
            reveal_strlit("-");
        }
        cat2("-", digits.as_str())
    } else {
        decimal_text(n as u64)
    }
}

/// The sum of two signed numbers in decimal.
pub fn decimal_sum_text(a: i64, b: i64) -> (r: String)
    ensures
        r@ == decimal_int(a + b),
{
    proof {
        reveal_strlit("-");
    }
    let sum: i128 = a as i128 + b as i128;
    if sum < 0 {
        let digits = decimal_wide((-sum) as u128);
        cat2("-", digits.as_str())
    } else {
        decimal_wide(sum as u128)
    }
}

/// Reads an unsigned decimal literal; `None` where the text is no such literal
/// or the number does not fit.
pub fn parse_unsigned(s: &str) -> (r: Option<u64>)
    ensures
        r == unsigned_value(s@),
{
    let chars = to_chars(s);
    let n: usize = chars.len();
    let start: usize = if n > 0 && chars[0] == '+' {
        1
    } else {
        0
    };
    let ghost digits = unsigned_digits(s@);
    assert(digits == s@.skip(start as int));
    if start == n {
        return None;
    }
    let mut value: u64 = 0;
    let mut i: usize = start;
    while i < n
        invariant
            start <= i <= n,
            start <= 1,
            n == chars@.len(),
            chars@ == s@,
            digits == unsigned_digits(s@),
            digits == s@.skip(start as int),
            digits.len() > 0,
            all_digits(digits.take(i - start)),
            value == digits_value(digits.take(i - start)),
        decreases n - i,
    {
        let c = chars[i];
        let ghost at = (i - start) as int;
        assert(digits[at] == c);
        if c < '0' || c > '9' {
            assert(!all_digits(digits));
            return None;
        }
        let ghost longer = digits.take(at + 1);
        assert(longer.drop_last() == digits.take(at));
        assert(longer.last() == c);
        let d: u64 = (c as u32 - '0' as u32) as u64;
        proof {
            lemma_digits_grow(digits, at + 1);
        }
        match value.checked_mul(10) {
            None => {
                return None;
            },
            Some(scaled) => match scaled.checked_add(d) {
                None => {
                    return None;
                },
                Some(next) => {
                    value = next;
                },
            },
        }
        i = i + 1;
    }
    assert(digits.take(n - start) == digits);
    Some(value)
}

/// A longer run of digits writes a number at least as large.
proof fn lemma_digits_grow(s: Seq<char>, k: int)
    requires
        0 <= k <= s.len(),
    ensures
        all_digits(s) ==> digits_value(s.take(k)) <= digits_value(s),
    decreases s.len() - k,
{
    if k < s.len() {
        lemma_digits_grow(s, k + 1);
        let longer = s.take(k + 1);
        assert(longer.drop_last() == s.take(k));
    } else {
        assert(s.take(k) == s);
    }
}

// ── Order ────────────────────────────────────────────────────────────────────

/// The order of texts is reflexive.
pub proof fn lemma_text_le_reflexive(a: Seq<char>)
    ensures
        text_le(a, a),
    decreases a.len(),
{
    if a.len() > 0 {
        lemma_text_le_reflexive(a.skip(1));
    }
}

/// Of any two texts, one stands before the other or they are the same.
pub proof fn lemma_text_le_total(a: Seq<char>, b: Seq<char>)
    ensures
        text_le(a, b) || text_le(b, a),
    decreases a.len(),
{
    if a.len() > 0 && b.len() > 0 && a[0] == b[0] {
        lemma_text_le_total(a.skip(1), b.skip(1));
    }
}

/// Of two texts that each stand before the other both are the same.
pub proof fn lemma_text_le_antisymmetric(a: Seq<char>, b: Seq<char>)
    requires
        text_le(a, b),
        text_le(b, a),
    ensures
        a == b,
    decreases a.len(),
{
    if a.len() > 0 && b.len() > 0 {
        lemma_text_le_antisymmetric(a.skip(1), b.skip(1));
        assert(a == seq![a[0]] + a.skip(1));
        assert(b == seq![b[0]] + b.skip(1));
    }
}

/// The order of texts is transitive.
pub proof fn lemma_text_le_transitive(a: Seq<char>, b: Seq<char>, c: Seq<char>)
    requires
        text_le(a, b),
        text_le(b, c),
    ensures
        text_le(a, c),
    decreases a.len(),
{
    if a.len() > 0 && b.len() > 0 && c.len() > 0 && a[0] == b[0] && b[0] == c[0] {
        lemma_text_le_transitive(a.skip(1), b.skip(1), c.skip(1));
    }
}

/// Texts in ascending order, each once, are settled by which texts they are.
pub proof fn lemma_same_texts(a: Seq<Seq<char>>, b: Seq<Seq<char>>)
    requires
        strictly_ascending(a),
        strictly_ascending(b),
        forall|t: Seq<char>| #[trigger] a.contains(t) <==> b.contains(t),
    ensures
        a == b,
    decreases a.len(),
{
    if a.len() == 0 {
        if b.len() > 0 {
            assert(b.contains(b[0]));
            assert(a.contains(b[0]));
        }
    } else {
        let x = a.last();
        assert(a.contains(x));
        let y = b.last();
        assert(b.contains(y));
        assert(a.contains(y));
        lemma_text_le_reflexive(x);
        assert(text_le(y, x)) by {
            let j = a.index_of(y);
            assert(a[j] == y);
        }
        assert(text_le(x, y)) by {
            let i = b.index_of(x);
            assert(b[i] == x);
        }
        lemma_text_le_antisymmetric(x, y);
        let front_a = a.drop_last();
        let front_b = b.drop_last();
        assert forall|t: Seq<char>| #[trigger] front_a.contains(t) <==> front_b.contains(t) by {
            if front_a.contains(t) {
                let i = front_a.index_of(t);
                assert(a[i] == t);
                assert(a.contains(t));
                let j = b.index_of(t);
                assert(front_b[j] == t);
            }
            if front_b.contains(t) {
                let j = front_b.index_of(t);
                assert(b[j] == t);
                assert(b.contains(t));
                assert(a.contains(t));
                let i = a.index_of(t);
                assert(front_a[i] == t);
            }
        }
        lemma_same_texts(front_a, front_b);
        assert(a == front_a.push(x));
        assert(b == front_b.push(y));
    }
}

/// Whether `a` stands before `b`, or is the same.
pub fn le_text(a: &str, b: &str) -> (r: bool)
    ensures
        r == text_le(a@, b@),
{
    let x = to_chars(a);
    let y = to_chars(b);
    let mut i: usize = 0;
    assert(x@.skip(0) == a@);
    assert(y@.skip(0) == b@);
    while i < x.len() && i < y.len()
        invariant
            i <= x@.len(),
            i <= y@.len(),
            x@ == a@,
            y@ == b@,
            text_le(a@, b@) == text_le(x@.skip(i as int), y@.skip(i as int)),
        decreases x@.len() - i,
    {
        assert(x@.skip(i as int).skip(1) == x@.skip(i + 1));
        assert(y@.skip(i as int).skip(1) == y@.skip(i + 1));
        if x[i] != y[i] {
            return x[i] < y[i];
        }
        i = i + 1;
    }
    i == x.len()
}

/// A text put into a list at `at`, or before it as long as the text there stands
/// behind it.
pub open spec fn placed_text(list: Seq<Seq<char>>, text: Seq<char>, at: int) -> Seq<Seq<char>>
    decreases at,
{
    if at <= 0 || text_le(list[at - 1], text) {
        list.insert(at, text)
    } else {
        placed_text(list, text, at - 1)
    }
}

/// The texts in ascending order.
pub open spec fn sorted_texts(list: Seq<Seq<char>>) -> Seq<Seq<char>>
    decreases list.len(),
{
    if list.len() == 0 {
        list
    } else {
        let before = sorted_texts(list.drop_last());
        placed_text(before, list.last(), before.len() as int)
    }
}

/// Placing a text keeps the others, and the order.
proof fn lemma_placed_text(list: Seq<Seq<char>>, text: Seq<char>, at: int)
    requires
        0 <= at <= list.len(),
        ascending(list),
        forall|k: int| at <= k < list.len() ==> !text_le(#[trigger] list[k], text),
    ensures
        ascending(placed_text(list, text, at)),
        placed_text(list, text, at).to_multiset() == list.to_multiset().insert(text),
        placed_text(list, text, at).len() == list.len() + 1,
    decreases at,
{
    if at <= 0 || text_le(list[at - 1], text) {
        let after = list.insert(at, text);
        assert forall|i: int, j: int| 0 <= i < j < after.len() implies text_le(
            #[trigger] after[i],
            #[trigger] after[j],
        ) by {
            if i == at {
                assert(after[j] == list[j - 1]);
                lemma_text_le_total(list[j - 1], text);
            } else if j == at {
                assert(after[i] == list[i]);
                if i < at - 1 {
                    assert(text_le(list[i], list[at - 1]));
                    lemma_text_le_transitive(list[i], list[at - 1], text);
                }
            } else {
                let x = if i < at {
                    i
                } else {
                    i - 1
                };
                let y = if j < at {
                    j
                } else {
                    j - 1
                };
                assert(after[i] == list[x]);
                assert(after[j] == list[y]);
            }
        }
        vstd::seq_lib::to_multiset_insert(list, at, text);
    } else {
        lemma_placed_text(list, text, at - 1);
    }
}

/// Sorting keeps the texts, and brings them into ascending order.
pub proof fn sorting_orders(list: Seq<Seq<char>>)
    ensures
        ascending(sorted_texts(list)),
        sorted_texts(list).to_multiset() == list.to_multiset(),
        sorted_texts(list).len() == list.len(),
    decreases list.len(),
{
    if list.len() > 0 {
        sorting_orders(list.drop_last());
        let before = sorted_texts(list.drop_last());
        lemma_placed_text(before, list.last(), before.len() as int);
        assert(list == list.drop_last().push(list.last()));
        vstd::seq_lib::to_multiset_build(list.drop_last(), list.last());
    }
}

/// Puts a string into its place in a list.
fn place_text(list: &mut Vec<String>, s: String)
    ensures
        views(final(list)@) == placed_text(
            views(old(list)@),
            s@,
            old(list)@.len() as int,
        ),
{
    let ghost before = views(list@);
    let mut at: usize = list.len();
    while at > 0 && !le_text(list[at - 1].as_str(), s.as_str())
        invariant
            at <= list@.len(),
            views(list@) == before,
            placed_text(before, s@, before.len() as int) == placed_text(before, s@, at as int),
        decreases at,
    {
        assert(before[at - 1] == list@[at - 1]@);
        at = at - 1;
    }
    assert(at > 0 ==> before[at - 1] == list@[at - 1]@);
    list.insert(at, s);
    assert(views(list@) == before.insert(at as int, s@));
}

/// The strings in ascending order.
pub fn sort_texts(list: &[String]) -> (r: Vec<String>)
    ensures
        views(r@) == sorted_texts(views(list@)),
{
    let mut out: Vec<String> = Vec::new();
    let n: usize = list.len();
    let mut i: usize = 0;
    assert(views(out@) == sorted_texts(views(list@).take(0)));
    while i < n
        invariant
            i <= n,
            n == list@.len(),
            views(out@) == sorted_texts(views(list@).take(i as int)),
        decreases n - i,
    {
        proof {
            let longer = views(list@).take(i + 1);
            assert(longer.drop_last() == views(list@).take(i as int));
            assert(longer.last() == list@[i as int]@);
            assert(views(out@).len() == out@.len());
        }
        place_text(&mut out, list[i].clone());
        i = i + 1;
    }
    assert(views(list@).take(n as int) == views(list@));
    out
}

// ── Columns ──────────────────────────────────────────────────────────────────

/// A cell of exactly `width` characters: cut with an ellipsis where the text is
/// longer, filled with spaces where it is shorter.
pub open spec fn fitted_cell(s: Seq<char>, width: nat) -> Seq<char> {
    if s.len() <= width {
        s + repeated(' ', (width - s.len()) as nat)
    } else if width == 0 {
        Seq::empty()
    } else {
        s.take(width - 1).push('…')
    }
}

/// The text itself where it fits in `max` characters or `max` is zero, else its
/// first `max - 1` characters and an ellipsis.
pub open spec fn shortened(s: Seq<char>, max: nat) -> Seq<char> {
    if s.len() <= max || max == 0 {
        s
    } else {
        s.take(max - 1).push('…')
    }
}

/// A run of spaces.
pub fn spaces(n: usize) -> (r: String)
    ensures
        r@ == repeated(' ', n as nat),
{
    let mut out = String::new();
    let mut i: usize = 0;
    while i < n
        invariant
            i <= n,
            out@ == repeated(' ', i as nat),
        decreases n - i,
    {
        proof {
            reveal_strlit(" ");
        }
        out.append(" ");
        i = i + 1;
    }
    out
}

/// The first `keep` characters of a text, followed by an ellipsis.
pub fn cut_with_ellipsis(s: &str, keep: usize) -> (r: String)
    requires
        keep <= s@.len(),
    ensures
        r@ == s@.take(keep as int).push('…'),
{
    proof {
        reveal_strlit("…");
    }
    cat2(s.substring_char(0, keep), "…")
}

/// A cell takes exactly its width, and a shortened text no more than its limit.
pub proof fn cells_take_their_width(s: Seq<char>, width: nat)
    ensures
        fitted_cell(s, width).len() == width,
        width > 0 ==> shortened(s, width).len() <= width,
{
}

/// The value of a text with one more digit behind it.
proof fn lemma_one_more_digit(n: nat)
    ensures
        all_digits(decimal(n)),
        digits_value(decimal(n)) == n,
        decimal(n).len() > 0,
        decimal(n)[0] != '+',
    decreases n,
{
    if n >= 10 {
        lemma_one_more_digit(n / 10);
        assert(decimal(n).drop_last() == decimal(n / 10));
        assert(decimal(n).last() == digit_char(n % 10));
    } else {
        assert(decimal(n) == seq![digit_char(n)]);
        assert(decimal(n).drop_last() == Seq::<char>::empty());
        assert(digits_value(Seq::<char>::empty()) == 0);
    }
}

/// A number that is written in decimal is read back.
pub proof fn decimal_reads_back(n: u64)
    ensures
        unsigned_value(decimal(n as nat)) == Some(n),
{
    lemma_one_more_digit(n as nat);
}

/// A list with one more piece at its front, joined.
proof fn lemma_joined_front(first: Seq<char>, rest: Seq<Seq<char>>, sep: Seq<char>)
    requires
        rest.len() > 0,
    ensures
        joined(seq![first] + rest, sep) == first + sep + joined(rest, sep),
    decreases rest.len(),
{
    let all = seq![first] + rest;
    if rest.len() == 1 {
        assert(all.drop_last() == seq![first]);
        assert(joined(seq![first], sep) == first);
        assert(all.last() == rest[0]);
    } else {
        lemma_joined_front(first, rest.drop_last(), sep);
        assert(all.drop_last() == seq![first] + rest.drop_last());
        assert(all.last() == rest.last());
        assert(first + sep + joined(rest.drop_last(), sep) + sep + rest.last() == first + sep + (
        joined(rest.drop_last(), sep) + sep + rest.last()));
    }
}

/// The pieces of a text from a position on, joined.
proof fn lemma_joined_pieces(s: Seq<char>, sep: Seq<char>, start: int, at: int)
    requires
        0 <= start <= at <= s.len(),
    ensures
        pieces(s, sep, start, at).len() > 0,
        joined(pieces(s, sep, start, at), sep) == s.skip(start),
    decreases s.len() - at,
{
    if sep.len() == 0 || at + sep.len() > s.len() {
    } else if occurs_at(s, sep, at) {
        let next = at + sep.len();
        lemma_joined_pieces(s, sep, next, next);
        lemma_joined_front(s.subrange(start, at), pieces(s, sep, next, next), sep);
        assert(s.subrange(start, at) + s.subrange(at, next) + s.skip(next) == s.skip(start));
    } else {
        lemma_joined_pieces(s, sep, start, at + 1);
    }
}

/// The pieces of a text, joined again, give the text.
pub proof fn split_and_joined(s: Seq<char>, sep: Seq<char>)
    ensures
        joined(split(s, sep), sep) == s,
{
    lemma_joined_pieces(s, sep, 0, 0);
    assert(s.skip(0) == s);
}

/// The first position of a character that stands behind a text without it.
pub proof fn position_behind(front: Seq<char>, c: char, back: Seq<char>, from: int)
    requires
        !front.contains(c),
        0 <= from <= front.len(),
    ensures
        position(front.push(c) + back, c, from) == Some(front.len() as int),
    decreases front.len() - from,
{
    let s = front.push(c) + back;
    if from < front.len() {
        assert(front.contains(front[from]));
        assert(s[from] == front[from]);
        position_behind(front, c, back, from + 1);
    } else {
        assert(s[from] == c);
    }
}

/// What a middle part holds, the whole holds.
pub proof fn lemma_middle_holds<A>(a: Seq<A>, b: Seq<A>, c: Seq<A>, x: A)
    requires
        b.contains(x),
    ensures
        (a + b + c).contains(x),
{
    let i = b.index_of(x);
    assert((a + b + c)[a.len() + i] == x);
}

/// A sequence is what stands before an element, the element, and what stands behind
/// it.
pub proof fn lemma_parted<A>(s: Seq<A>, i: int)
    requires
        0 <= i < s.len(),
    ensures
        s == s.take(i) + seq![s[i]] + s.skip(i + 1),
{
    assert(s == s.take(i) + seq![s[i]] + s.skip(i + 1));
}

/// The position of a character is the first one at which it stands, and there is
/// none exactly where it stands nowhere.
pub proof fn position_is_first(s: Seq<char>, c: char, from: int)
    requires
        0 <= from <= s.len(),
    ensures
        match position(s, c, from) {
            Some(i) => from <= i < s.len() && s[i] == c && forall|k: int|
                from <= k < i ==> #[trigger] s[k] != c,
            None => forall|k: int| from <= k < s.len() ==> #[trigger] s[k] != c,
        },
    decreases s.len() - from,
{
    if from < s.len() && s[from] != c {
        position_is_first(s, c, from + 1);
    }
}

/// Joining puts every part in, in order, with the separator between neighbours and
/// nowhere else.
pub proof fn joined_parts(parts: Seq<Seq<char>>, last: Seq<char>, sep: Seq<char>)
    ensures
        joined(Seq::empty(), sep).len() == 0,
        joined(seq![last], sep) == last,
        parts.len() > 0 ==> joined(parts.push(last), sep) == joined(parts, sep) + sep + last,
{
    assert(parts.push(last).drop_last() == parts);
}

/// A cell keeps a text that fits, with spaces behind it, and else as much of its
/// beginning as fits ahead of an ellipsis; so does a shortened text, without spaces.
pub proof fn cells_keep_what_fits(s: Seq<char>, width: nat)
    ensures
        s.len() <= width ==> fitted_cell(s, width).take(s.len() as int) == s && shortened(s, width)
            == s,
        s.len() <= width ==> forall|i: int|
            s.len() <= i < width ==> #[trigger] fitted_cell(s, width)[i] == ' ',
        s.len() > width && width > 0 ==> fitted_cell(s, width) == s.take(width - 1).push('…')
            && shortened(s, width) == s.take(width - 1).push('…'),
{
    if s.len() <= width {
        assert(fitted_cell(s, width).take(s.len() as int) == s);
    }
}

/// The lines of a text without line feeds are the text, where it is not empty.
pub proof fn lines_of_one(s: Seq<char>)
    requires
        !s.contains('\n'),
    ensures
        s.len() > 0 ==> lines_of(s) == seq![s],
        s.len() == 0 ==> lines_of(s).len() == 0,
{
    reveal_strlit("\n");
    lemma_no_pieces(s, "\n"@, 0);
    assert(s.skip(0) == s);
    let parts = split(s, "\n"@);
    assert(parts == seq![s]);
    assert(lines_in(parts, 0) == Seq::<Seq<char>>::empty());
}

/// A text in which the separator does not occur is one piece.
proof fn lemma_no_pieces(s: Seq<char>, sep: Seq<char>, at: int)
    requires
        sep.len() == 1,
        !s.contains(sep[0]),
        0 <= at <= s.len(),
    ensures
        pieces(s, sep, 0, at) == seq![s.skip(0)],
    decreases s.len() - at,
{
    if at < s.len() {
        if occurs_at(s, sep, at) {
            assert(s.subrange(at, at + 1)[0] == s[at]);
            assert(s.contains(s[at]));
        }
        lemma_no_pieces(s, sep, at + 1);
    }
}

/// No piece between separators has the separator in it.
pub proof fn pieces_are_free_of_separators(s: Seq<char>, sep: Seq<char>, i: int)
    requires
        sep.len() > 0,
        0 <= i < split(s, sep).len(),
    ensures
        forall|k: int| !occurs_at(split(s, sep)[i], sep, k),
{
    lemma_pieces_free(s, sep, 0, 0);
}

/// No piece from `start` on has the separator in it, where none occurs up to `at`.
proof fn lemma_pieces_free(s: Seq<char>, sep: Seq<char>, start: int, at: int)
    requires
        sep.len() > 0,
        0 <= start <= at,
        start <= s.len(),
        forall|k: int| start <= k < at ==> !occurs_at(s, sep, k),
    ensures
        forall|i: int, k: int|
            0 <= i < pieces(s, sep, start, at).len() ==> !(#[trigger] occurs_at(
                pieces(s, sep, start, at)[i],
                sep,
                k,
            )),
    decreases s.len() - at,
{
    let all = pieces(s, sep, start, at);
    if at + sep.len() > s.len() {
        let piece = s.skip(start);
        assert forall|i: int, k: int| 0 <= i < all.len() implies !(#[trigger] occurs_at(
            all[i],
            sep,
            k,
        )) by {
            if occurs_at(piece, sep, k) {
                assert(s.subrange(start + k, start + k + sep.len()) == piece.subrange(
                    k,
                    k + sep.len(),
                ));
                assert(occurs_at(s, sep, start + k));
            }
        }
    } else if occurs_at(s, sep, at) {
        let next = at + sep.len();
        let rest = pieces(s, sep, next, next);
        let piece = s.subrange(start, at);
        lemma_pieces_free(s, sep, next, next);
        assert forall|i: int, k: int| 0 <= i < all.len() implies !(#[trigger] occurs_at(
            all[i],
            sep,
            k,
        )) by {
            if i == 0 {
                if occurs_at(piece, sep, k) {
                    assert(s.subrange(start + k, start + k + sep.len()) == piece.subrange(
                        k,
                        k + sep.len(),
                    ));
                    assert(occurs_at(s, sep, start + k));
                }
            } else {
                assert(all[i] == rest[i - 1]);
            }
        }
    } else {
        lemma_pieces_free(s, sep, start, at + 1);
        assert(all == pieces(s, sep, start, at + 1));
    }
}

/// The lines of a text are its pieces between line feeds, each without a carriage
/// return at its end; what stands behind the last line feed is a line only where it is
/// not empty, and as it is.
pub proof fn lines_are_pieces(s: Seq<char>)
    ensures
        ({
            let parts = split(s, "\n"@);
            let lines = lines_of(s);
            &&& parts.len() > 0
            &&& parts.last().len() > 0 ==> lines.len() == parts.len() && lines.last()
                == parts.last()
            &&& parts.last().len() == 0 ==> lines.len() == parts.len() - 1
            &&& forall|i: int|
                0 <= i < parts.len() - 1 ==> {
                    let part = #[trigger] parts[i];
                    &&& part.len() > 0 && part.last() == '\r' ==> lines[i] == part.drop_last()
                    &&& part.len() == 0 || part.last() != '\r' ==> lines[i] == part
                }
        }),
{
    let parts = split(s, "\n"@);
    lemma_some_piece(s, "\n"@, 0, 0);
    lemma_first_lines(parts, (parts.len() - 1) as nat);
}

/// There is at least one piece.
proof fn lemma_some_piece(s: Seq<char>, sep: Seq<char>, start: int, at: int)
    ensures
        pieces(s, sep, start, at).len() > 0,
    decreases s.len() - at,
{
    if !(sep.len() == 0 || at + sep.len() > s.len()) && !occurs_at(s, sep, at) {
        lemma_some_piece(s, sep, start, at + 1);
    }
}

/// Every piece but the last one is a line.
proof fn lemma_first_lines(parts: Seq<Seq<char>>, n: nat)
    requires
        n < parts.len(),
    ensures
        lines_in(parts, n).len() == n,
        forall|i: int| 0 <= i < n ==> #[trigger] lines_in(parts, n)[i] == without_return(parts[i]),
    decreases n,
{
    if n > 0 {
        lemma_first_lines(parts, (n - 1) as nat);
    }
}

/// What is empty, or has anything but digits in it, is no number.
pub proof fn only_digits_are_numbers(s: Seq<char>, i: int)
    ensures
        s.len() == 0 ==> unsigned_value(s) is None,
        0 < i < s.len() && !('0' <= s[i] <= '9') ==> unsigned_value(s) is None,
        s.len() > 0 && s[0] != '+' && !('0' <= s[0] <= '9') ==> unsigned_value(s) is None,
        s == seq!['+'] ==> unsigned_value(s) is None,
{
    if 0 < i < s.len() && s[0] == '+' {
        assert(s.skip(1)[i - 1] == s[i]);
    }
}

/// The texts of a list are those of its strings, in their order.
pub proof fn views_are_the_texts(v: Seq<String>, i: int)
    requires
        0 <= i < v.len(),
    ensures
        views(v).len() == v.len(),
        views(v)[i] == v[i]@,
{
}

} // verus!

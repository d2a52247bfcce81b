use vstd::prelude::*;
use vstd::string::*;

verus! {

/// Appends one character to a string (`String::push`).
#[verifier::external_body]
pub(crate) fn push_char(s: &mut String, c: char)
    ensures
        final(s)@ == old(s)@.push(c),
{
    s.push(c);
}

/// The characters of `s`, in order.
pub fn chars_of(s: &str) -> (res: Vec<char>)
    ensures
        res@ == s@,
{
    let n = s.unicode_len();
    let mut res: Vec<char> = Vec::new();
    for i in 0..n
        invariant
            n == s@.len(),
            res@ == s@.take(i as int),
    {
        res.push(s.get_char(i));
        assert(s@.take(i + 1) == s@.take(i as int).push(s@[i as int]));
    }
    assert(s@.take(n as int) == s@);
    res
}

/// A string holding exactly the characters `cs`.
pub fn string_of(cs: &Vec<char>) -> (res: String)
    ensures
        res@ == cs@,
{
    let mut res = String::new();
    for i in 0..cs.len()
        invariant
            res@ == cs@.take(i as int),
    {
        push_char(&mut res, cs[i]);
        assert(cs@.take(i + 1) == cs@.take(i as int).push(cs@[i as int]));
    }
    assert(cs@.take(cs@.len() as int) == cs@);
    res
}

} // verus!

verus! {

/// Lexicographic order on character sequences, comparing characters by code
/// point.  This is the order `Ord` gives `String` (UTF-8 preserves code point
/// order).
pub open spec fn text_lt(a: Seq<char>, b: Seq<char>) -> bool
    decreases a.len(),
{
    if a.len() == 0 {
        b.len() > 0
    } else if b.len() == 0 {
        false
    } else if a[0] == b[0] {
        text_lt(a.drop_first(), b.drop_first())
    } else {
        a[0] < b[0]
    }
}

/// `text_lt` is irreflexive.
pub proof fn lemma_text_lt_irreflexive(a: Seq<char>)
    ensures
        !text_lt(a, a),
    decreases a.len(),
{
    if a.len() > 0 {
        lemma_text_lt_irreflexive(a.drop_first());
    }
}

/// `text_lt` is transitive.
pub proof fn lemma_text_lt_transitive(a: Seq<char>, b: Seq<char>, c: Seq<char>)
    requires
        text_lt(a, b),
        text_lt(b, c),
    ensures
        text_lt(a, c),
    decreases a.len(),
{
    if a.len() > 0 && b.len() > 0 && c.len() > 0 {
        if a[0] == b[0] && b[0] == c[0] {
            lemma_text_lt_transitive(a.drop_first(), b.drop_first(), c.drop_first());
        }
    }
}

/// Any two different sequences are ordered one way or the other.
pub proof fn lemma_text_lt_connected(a: Seq<char>, b: Seq<char>)
    ensures
        a != b ==> text_lt(a, b) || text_lt(b, a),
    decreases a.len(),
{
    if a.len() > 0 && b.len() > 0 {
        lemma_text_lt_connected(a.drop_first(), b.drop_first());
        if a[0] == b[0] && a.drop_first() == b.drop_first() {
            assert(a == seq![a[0]] + a.drop_first());
            assert(b == seq![b[0]] + b.drop_first());
        }
    } else if a.len() == 0 && b.len() == 0 {
        assert(a == b);
    }
}

/// `text_lt` is asymmetric.
pub proof fn lemma_text_lt_asymmetric(a: Seq<char>, b: Seq<char>)
    ensures
        text_lt(a, b) ==> !text_lt(b, a),
{
    if text_lt(a, b) && text_lt(b, a) {
        lemma_text_lt_transitive(a, b, a);
        lemma_text_lt_irreflexive(a);
    }
}

/// Whether `a` sorts before `b` as strings.
pub fn text_less(a: &str, b: &str) -> (res: bool)
    ensures
        res == text_lt(a@, b@),
{
    let ac = chars_of(a);
    let bc = chars_of(b);
    let mut i: usize = 0;
    assert(a@.skip(0) == a@ && b@.skip(0) == b@);
    while i < ac.len() && i < bc.len() && ac[i] == bc[i]
        invariant
            i <= ac@.len(),
            i <= bc@.len(),
            ac@ == a@,
            bc@ == b@,
            text_lt(a@, b@) == text_lt(a@.skip(i as int), b@.skip(i as int)),
        decreases ac@.len() - i,
    {
        assert(a@.skip(i as int).drop_first() == a@.skip(i + 1));
        assert(b@.skip(i as int).drop_first() == b@.skip(i + 1));
        i = i + 1;
    }
    if i == ac.len() {
        i < bc.len()
    } else if i == bc.len() {
        false
    } else {
        ac[i] < bc[i]
    }
}

} // verus!

verus! {

// ---------------------------------------------------------------------------
// Building text

/// `n` copies of `c`.
pub open spec fn repeated(c: char, n: nat) -> Seq<char> {
    Seq::new(n, |i: int| c)
}

/// `n` copies of `c` as a string.
pub fn repeat_char(c: char, n: usize) -> (res: String)
    ensures
        res@ == repeated(c, n as nat),
{
    let mut res = String::new();
    for i in 0..n
        invariant
            res@ == repeated(c, i as nat),
    {
        push_char(&mut res, c);
        assert(res@ == repeated(c, (i + 1) as nat));
    }
    res
}

/// `s` padded with spaces on the right to at least `width` characters.
pub open spec fn pad_right(s: Seq<char>, width: nat) -> Seq<char> {
    if s.len() >= width {
        s
    } else {
        s + repeated(' ', (width - s.len()) as nat)
    }
}

/// `s` padded with spaces on the left to at least `width` characters.
pub open spec fn pad_left(s: Seq<char>, width: nat) -> Seq<char> {
    if s.len() >= width {
        s
    } else {
        repeated(' ', (width - s.len()) as nat) + s
    }
}

/// Appends `s` left-aligned in a field of `width` characters (`{:<width$}`).
pub fn push_left(out: &mut String, s: &str, width: usize)
    ensures
        final(out)@ == old(out)@ + pad_right(s@, width as nat),
{
    let n = s.unicode_len();
    out.append(s);
    if n < width {
        let fill = repeat_char(' ', width - n);
        out.append(fill.as_str());
    }
}

/// Appends `s` right-aligned in a field of `width` characters (`{:>width$}`).
pub fn push_right(out: &mut String, s: &str, width: usize)
    ensures
        final(out)@ == old(out)@ + pad_left(s@, width as nat),
{
    let n = s.unicode_len();
    if n < width {
        let fill = repeat_char(' ', width - n);
        out.append(fill.as_str());
    }
    out.append(s);
    proof {
        if n < width {
            assert(old(out)@ + repeated(' ', (width - n) as nat) + s@ == old(out)@ + (repeated(' ', (width - n) as nat) + s@));
        }
    }
}

/// The decimal digit `d`.
pub open spec fn digit_char(d: nat) -> char {
    ((48 + d) as u8) as char
}

/// The decimal representation of `n`, without sign or leading zeros.
pub open spec fn decimal(n: nat) -> Seq<char>
    decreases n,
{
    if n < 10 {
        seq![digit_char(n)]
    } else {
        decimal(n / 10).push(digit_char(n % 10))
    }
}

/// The decimal representation of a signed number.
pub open spec fn signed_decimal(n: int) -> Seq<char> {
    if n < 0 {
        seq!['-'] + decimal((-n) as nat)
    } else {
        decimal(n as nat)
    }
}

/// `n` in decimal.
pub fn u64_text(n: u64) -> (res: String)
    ensures
        res@ == decimal(n as nat),
    decreases n,
{
    if n < 10 {
        let mut res = String::new();
        push_char(&mut res, ((48 + n) as u8) as char);
        res
    } else {
        let mut res = u64_text(n / 10);
        push_char(&mut res, ((48 + n % 10) as u8) as char);
        res
    }
}

/// `n` in decimal.
pub fn usize_text(n: usize) -> (res: String)
    ensures
        res@ == decimal(n as nat),
{
    u64_text(n as u64)
}

/// `n` in decimal, with a leading `-` when negative.
pub fn i64_text(n: i64) -> (res: String)
    ensures
        res@ == signed_decimal(n as int),
{
    if n < 0 {
        let magnitude: u64 = (0i128 - n as i128) as u64;
        let digits = u64_text(magnitude);
        let mut res = String::new();
        push_char(&mut res, '-');
        res.append(digits.as_str());
        res
    } else {
        u64_text(n as u64)
    }
}

// ---------------------------------------------------------------------------
// HTML and URLs

/// The HTML escape of one character.
pub open spec fn escape_char(c: char) -> Seq<char> {
    if c == '&' {
        "&amp;"@
    } else if c == '<' {
        "&lt;"@
    } else if c == '>' {
        "&gt;"@
    } else if c == '"' {
        "&quot;"@
    } else if c == '\'' {
        "&#39;"@
    } else {
        seq![c]
    }
}

/// `s` with `&`, `<`, `>`, `"` and `'` replaced by their HTML entities.
pub open spec fn escaped(s: Seq<char>) -> Seq<char>
    decreases s.len(),
{
    if s.len() == 0 {
        Seq::empty()
    } else {
        escaped(s.drop_last()) + escape_char(s.last())
    }
}

/// `value` made safe to place in HTML text.
pub fn escape(value: &str) -> (res: String)
    ensures
        res@ == escaped(value@),
{
    let cs = chars_of(value);
    let mut res = String::new();
    for i in 0..cs.len()
        invariant
            cs@ == value@,
            res@ == escaped(value@.take(i as int)),
    {
        assert(value@.take(i + 1).drop_last() == value@.take(i as int));
        assert(value@.take(i + 1).last() == value@[i as int]);
        let c = cs[i];
        if c == '&' {
            res.append("&amp;");
        } else if c == '<' {
            res.append("&lt;");
        } else if c == '>' {
            res.append("&gt;");
        } else if c == '"' {
            res.append("&quot;");
        } else if c == '\'' {
            res.append("&#39;");
        } else {
            push_char(&mut res, c);
        }
    }
    assert(value@.take(cs@.len() as int) == value@);
    res
}

/// The index of the first `c` in `s`, if any.
pub open spec fn first_index_of(s: Seq<char>, c: char) -> Option<int> {
    if exists|i: int| 0 <= i < s.len() && s[i] == c {
        Some(choose|i: int| 0 <= i < s.len() && s[i] == c && forall|j: int| 0 <= j < i ==> s[j] != c)
    } else {
        None
    }
}

/// The part of `s` before the first `c`, or all of `s`.
pub open spec fn before_char(s: Seq<char>, c: char) -> Seq<char> {
    match first_index_of(s, c) {
        Some(i) => s.take(i),
        None => s,
    }
}

/// The position of the first `c` in `cs`.
pub fn find_char(cs: &Vec<char>, c: char) -> (res: Option<usize>)
    ensures
        match res {
            Some(i) => first_index_of(cs@, c) == Some(i as int) && i < cs@.len(),
            None => first_index_of(cs@, c) is None,
        },
{
    for i in 0..cs.len()
        invariant
            forall|j: int| 0 <= j < i ==> cs@[j] != c,
    {
        if cs[i] == c {
            proof {
                assert(cs@[i as int] == c);
                let k = choose|k: int| 0 <= k < cs@.len() && cs@[k] == c && forall|j: int| 0 <= j < k ==> cs@[j] != c;
                assert(k == i) by {
                    if k < i {
                        assert(cs@[k] != c);
                    }
                    if i < k {
                        assert(cs@[i as int] != c);
                    }
                }
            }
            return Some(i);
        }
    }
    None
}

/// The first `n` characters of `cs` as a string.
pub fn prefix_string(cs: &Vec<char>, n: usize) -> (res: String)
    requires
        n <= cs@.len(),
    ensures
        res@ == cs@.take(n as int),
{
    let mut res = String::new();
    for i in 0..n
        invariant
            n <= cs@.len(),
            res@ == cs@.take(i as int),
    {
        push_char(&mut res, cs[i]);
        assert(cs@.take(i + 1) == cs@.take(i as int).push(cs@[i as int]));
    }
    res
}

/// The characters of `cs` from `start` to `end` as a string.
pub fn slice_string(cs: &Vec<char>, start: usize, end: usize) -> (res: String)
    requires
        start <= end <= cs@.len(),
    ensures
        res@ == cs@.subrange(start as int, end as int),
{
    let mut res = String::new();
    for i in start..end
        invariant
            start <= i <= end <= cs@.len(),
            res@ == cs@.subrange(start as int, i as int),
    {
        push_char(&mut res, cs[i]);
        assert(cs@.subrange(start as int, i + 1) == cs@.subrange(start as int, i as int).push(cs@[i as int]));
    }
    res
}

/// A URL without its query string: everything before the first `?`.
pub fn redact_url(url: &str) -> (res: String)
    ensures
        res@ == before_char(url@, '?'),
{
    let cs = chars_of(url);
    match find_char(&cs, '?') {
        Some(i) => prefix_string(&cs, i),
        None => string_of(&cs),
    }
}

} // verus!

verus! {

// ---------------------------------------------------------------------------
// Fitting text into columns

/// `s` cut to at most `max` characters; a cut is marked by a final `~`.
pub open spec fn truncated(s: Seq<char>, max: nat) -> Seq<char> {
    if max == 0 {
        Seq::empty()
    } else if s.len() > max {
        if max == 1 {
            seq!['~']
        } else {
            s.take(max - 1).push('~')
        }
    } else {
        s
    }
}

/// `value` cut to at most `max_chars` characters, the cut marked by `~`.
pub fn truncate(value: &str, max_chars: usize) -> (res: String)
    ensures
        res@ == truncated(value@, max_chars as nat),
{
    if max_chars == 0 {
        return String::new();
    }
    let cs = chars_of(value);
    if cs.len() > max_chars {
        if max_chars == 1 {
            let mut res = String::new();
            push_char(&mut res, '~');
            return res;
        }
        let mut res = prefix_string(&cs, max_chars - 1);
        push_char(&mut res, '~');
        res
    } else {
        string_of(&cs)
    }
}

/// `s` preceded by half the room it leaves in `width` columns.
pub open spec fn centered(s: Seq<char>, width: nat) -> Seq<char> {
    if s.len() >= width {
        s
    } else {
        repeated(' ', ((width - s.len()) / 2) as nat) + s
    }
}

/// `value` centred in `width` columns (left padding only).
pub fn center_text(value: &str, width: usize) -> (res: String)
    ensures
        res@ == centered(value@, width as nat),
{
    let n = value.unicode_len();
    if n >= width {
        String::from_str(value)
    } else {
        let mut res = repeat_char(' ', (width - n) / 2);
        res.append(value);
        res
    }
}

/// The number of characters of `value`.
pub fn visible_len(value: &str) -> (res: usize)
    ensures
        res == value@.len(),
{
    value.unicode_len()
}

// ---------------------------------------------------------------------------
// Latencies

/// How a latency in microseconds reads: `n/a`, whole microseconds, or
/// milliseconds with two decimals (rendered by the caller, as it takes a
/// float).
#[derive(Debug, Clone, PartialEq, Eq)]
pub enum LatencyText {
    Text(String),
    Millis(i64),
}

/// The text of a latency: `n/a` when absent, `{value} us` below one
/// millisecond in magnitude, otherwise a millisecond reading.
pub fn fmt_us(value: Option<i64>) -> (res: LatencyText)
    requires
        value != Some(i64::MIN),
    ensures
        match value {
            None => res matches LatencyText::Text(t) && t@ == "n/a"@,
            Some(v) => if -1000 < v < 1000 {
                res matches LatencyText::Text(t) && t@ == signed_decimal(v as int) + " us"@
            } else {
                res == LatencyText::Millis(v)
            },
        },
{
    match value {
        None => LatencyText::Text(String::from_str("n/a")),
        Some(v) => {
            let magnitude = if v < 0 { -v } else { v };
            if magnitude >= 1000 {
                LatencyText::Millis(v)
            } else {
                let mut t = i64_text(v);
                t.append(" us");
                LatencyText::Text(t)
            }
        },
    }
}

// ---------------------------------------------------------------------------
// Hosts

/// Whether `://` starts at index `i` of `s`.
pub open spec fn scheme_sep_at(s: Seq<char>, i: int) -> bool {
    0 <= i && i + 3 <= s.len() && s[i] == ':' && s[i + 1] == '/' && s[i + 2] == '/'
}

/// The index of the first `://` in `s`, if any.
pub open spec fn scheme_sep(s: Seq<char>) -> Option<int> {
    if exists|i: int| scheme_sep_at(s, i) {
        Some(choose|i: int| scheme_sep_at(s, i) && forall|j: int| 0 <= j < i ==> !scheme_sep_at(s, j))
    } else {
        None
    }
}

/// `s` without its leading `c` characters.
pub open spec fn trim_leading(s: Seq<char>, c: char) -> Seq<char>
    decreases s.len(),
{
    if s.len() > 0 && s[0] == c {
        trim_leading(s.drop_first(), c)
    } else {
        s
    }
}

/// The host of a URL: after the scheme, before any path; leading `[` and
/// everything from the first `]` dropped; then everything from the first
/// `:` (the port) dropped.
pub open spec fn host_of(url: Seq<char>) -> Seq<char> {
    let rest = url.skip(scheme_sep(url)->0 + 3);
    let authority = before_char(rest, '/');
    before_char(before_char(trim_leading(authority, '['), ']'), ':')
}

/// Why no host could be read from a URL.
#[derive(Debug, Clone, Copy, PartialEq, Eq)]
pub enum UrlError {
    /// The URL has no `://`.
    MissingScheme,
}

/// The position of the first `://` in `cs`.
fn find_scheme_sep(cs: &Vec<char>) -> (res: Option<usize>)
    ensures
        match res {
            None => scheme_sep(cs@) is None,
            Some(i) => scheme_sep(cs@) == Some(i as int) && i + 3 <= cs@.len(),
        },
{
    let n = cs.len();
    let mut i: usize = 0;
    while n >= 3 && i <= n - 3
        invariant
            n == cs@.len(),
            forall|j: int| 0 <= j < i ==> !scheme_sep_at(cs@, j),
        decreases n - i,
    {
        if cs[i] == ':' && cs[i + 1] == '/' && cs[i + 2] == '/' {
            proof {
                assert(scheme_sep_at(cs@, i as int));
                let k = choose|k: int| scheme_sep_at(cs@, k) && forall|j: int| 0 <= j < k ==> !scheme_sep_at(cs@, j);
                assert(k == i) by {
                    if k < i {
                        assert(!scheme_sep_at(cs@, k));
                    }
                    if i < k {
                        assert(!scheme_sep_at(cs@, i as int));
                    }
                }
            }
            return Some(i);
        }
        i = i + 1;
    }
    assert forall|j: int| !scheme_sep_at(cs@, j) by {
        if scheme_sep_at(cs@, j) && j >= i {
            assert(j + 3 <= n);
        }
    }
    None
}

/// The part of `s` before the first `c`.
fn before(s: &str, c: char) -> (res: String)
    ensures
        res@ == before_char(s@, c),
{
    let cs = chars_of(s);
    match find_char(&cs, c) {
        Some(p) => prefix_string(&cs, p),
        None => string_of(&cs),
    }
}

/// `s` without its leading `c` characters.
fn trim_start(s: &str, c: char) -> (res: String)
    ensures
        res@ == trim_leading(s@, c),
{
    let cs = chars_of(s);
    let mut t: usize = 0;
    assert(cs@.skip(0) == cs@);
    while t < cs.len() && cs[t] == c
        invariant
            t <= cs@.len(),
            cs@ == s@,
            trim_leading(s@, c) == trim_leading(cs@.skip(t as int), c),
        decreases cs@.len() - t,
    {
        assert(cs@.skip(t as int).drop_first() == cs@.skip(t + 1));
        t = t + 1;
    }
    slice_string(&cs, t, cs.len())
}

/// The host to verify a TLS certificate against, from a URL such as
/// `https://fra.example.com:443/path`.
pub fn host_from_url(url: &str) -> (res: Result<String, UrlError>)
    ensures
        match scheme_sep(url@) {
            None => res == Err::<String, UrlError>(UrlError::MissingScheme),
            Some(_) => res matches Ok(h) && h@ == host_of(url@),
        },
{
    let cs = chars_of(url);
    let start = match find_scheme_sep(&cs) {
        None => return Err(UrlError::MissingScheme),
        Some(i) => i,
    };
    let rest = slice_string(&cs, start + 3, cs.len());
    assert(rest@ == url@.skip(start + 3));
    let authority = before(rest.as_str(), '/');
    let trimmed = trim_start(authority.as_str(), '[');
    let bracketless = before(trimmed.as_str(), ']');
    Ok(before(bracketless.as_str(), ':'))
}

} // verus!

verus! {

// ---------------------------------------------------------------------------
// Numbers in text

/// Whether `c` is an ASCII decimal digit.
pub open spec fn is_digit(c: char) -> bool {
    '0' <= c <= '9'
}

/// The value of the decimal digits `s`.
pub open spec fn digits_value(s: Seq<char>) -> nat
    decreases s.len(),
{
    if s.len() == 0 {
        0
    } else {
        digits_value(s.drop_last()) * 10 + ((s.last() as u32) - 48) as nat
    }
}

/// The digits of `s` after an optional leading `+`.
pub open spec fn unsigned_digits(s: Seq<char>) -> Seq<char> {
    if s.len() > 0 && s[0] == '+' {
        s.drop_first()
    } else {
        s
    }
}

/// The `usize` that `s` writes the way `str::parse::<usize>` reads it: an
/// optional `+`, then one or more decimal digits, with a value that fits.
pub open spec fn parsed_usize(s: Seq<char>) -> Option<nat> {
    let d = unsigned_digits(s);
    if d.len() > 0 && (forall|i: int| 0 <= i < d.len() ==> is_digit(#[trigger] d[i])) && digits_value(d) <= usize::MAX {
        Some(digits_value(d))
    } else {
        None
    }
}

proof fn lemma_digits_value_grows(d: Seq<char>, i: int)
    requires
        0 <= i <= d.len(),
        forall|k: int| 0 <= k < d.len() ==> is_digit(#[trigger] d[k]),
    ensures
        digits_value(d.take(i)) <= digits_value(d),
    decreases d.len() - i,
{
    if i < d.len() {
        lemma_digits_value_grows(d, i + 1);
        assert(d.take(i + 1).drop_last() =~= d.take(i));
    } else {
        assert(d.take(i) =~= d);
    }
}

/// Reads `s` as `str::parse::<usize>` does.
pub fn parse_usize(s: &str) -> (res: Option<usize>)
    ensures
        match res {
            Some(v) => parsed_usize(s@) == Some(v as nat),
            None => parsed_usize(s@) is None,
        },
{
    let cs = chars_of(s);
    let start: usize = if cs.len() > 0 && cs[0] == '+' { 1 } else { 0 };
    let ghost d = unsigned_digits(s@);
    assert(d =~= s@.skip(start as int));
    if start >= cs.len() {
        return None;
    }
    let mut value: usize = 0;
    let mut i = start;
    while i < cs.len()
        invariant
            cs@ == s@,
            d == unsigned_digits(s@),
            d == s@.skip(start as int),
            start <= i <= cs.len(),
            value as nat == digits_value(d.take(i - start)),
            forall|k: int| 0 <= k < i - start ==> is_digit(#[trigger] d[k]),
        decreases cs.len() - i,
    {
        let c = cs[i];
        assert(d[i - start] == c);
        assert(d.take(i - start + 1).drop_last() =~= d.take(i - start));
        if c < '0' || c > '9' {
            assert(!is_digit(d[i - start]));
            return None;
        }
        let digit = (c as u32 - 48) as usize;
        let next = match value.checked_mul(10) {
            Some(t) => t.checked_add(digit),
            None => None,
        };
        match next {
            Some(n) => {
                value = n;
            },
            None => {
                proof {
                    if forall|k: int| 0 <= k < d.len() ==> is_digit(#[trigger] d[k]) {
                        lemma_digits_value_grows(d, i - start + 1);
                    }
                }
                return None;
            },
        }
        i = i + 1;
    }
    assert(d.take(i - start) =~= d);
    Some(value)
}

} // verus!

//! Character classes, number recognition and string building shared by the
//! lexer and the parsers.
use vstd::prelude::*;
use vstd::string::*;
use vstd::slice::*;

verus! {

/// Characters that separate tokens on a line. A backslash counts as
/// whitespace so that line continuations vanish from the token stream.
pub open spec fn is_whitespace_char(c: char) -> bool {
    c == ' ' || c == '\\' || c == '\t'
}

/// Characters that end a line.
pub open spec fn is_newline_char(c: char) -> bool {
    c == '\n' || c == '\r'
}

/// Characters that end a word token.
pub open spec fn is_delimiter_char(c: char) -> bool {
    is_whitespace_char(c) || is_newline_char(c) || c == '#'
}

pub fn is_whitespace(ch: char) -> (b: bool)
    ensures
        b == is_whitespace_char(ch),
{
    ch == ' ' || ch == '\\' || ch == '\t'
}

pub fn is_newline(ch: char) -> (b: bool)
    ensures
        b == is_newline_char(ch),
{
    ch == '\n' || ch == '\r'
}

pub fn is_whitespace_or_newline(ch: char) -> (b: bool)
    ensures
        b == (is_whitespace_char(ch) || is_newline_char(ch)),
{
    is_whitespace(ch) || is_newline(ch)
}

pub open spec fn is_digit_char(c: char) -> bool {
    '0' <= c && c <= '9'
}

pub open spec fn digit_value(c: char) -> nat {
    (c as int - '0' as int) as nat
}

pub open spec fn all_digits(s: Seq<char>) -> bool {
    forall|i: int| 0 <= i < s.len() ==> is_digit_char(#[trigger] s[i])
}

/// The value of a string of decimal digits, most significant first.
pub open spec fn decimal_value(s: Seq<char>) -> nat
    decreases s.len(),
{
    if s.len() == 0 {
        0
    } else {
        decimal_value(s.drop_last()) * 10 + digit_value(s.last())
    }
}

/// The digits of an unsigned numeral: an optional leading `+` is dropped.
pub open spec fn unsigned_digits(s: Seq<char>) -> Seq<char> {
    if s.len() > 0 && s[0] == '+' {
        s.drop_first()
    } else {
        s
    }
}

/// What `str::parse` gives for an unsigned integer type whose largest value is
/// `max`: an optional `+`, then one or more decimal digits, and a value that
/// fits.
pub open spec fn parse_unsigned(s: Seq<char>, max: nat) -> Option<nat> {
    let d = unsigned_digits(s);
    if d.len() > 0 && all_digits(d) && decimal_value(d) <= max {
        Some(decimal_value(d))
    } else {
        None
    }
}

pub open spec fn spec_parse_usize(s: Seq<char>) -> Option<usize> {
    match parse_unsigned(s, usize::MAX as nat) {
        Some(v) => Some(v as usize),
        None => None,
    }
}

pub open spec fn spec_parse_u32(s: Seq<char>) -> Option<u32> {
    match parse_unsigned(s, u32::MAX as nat) {
        Some(v) => Some(v as u32),
        None => None,
    }
}

proof fn lemma_decimal_value_grows(s: Seq<char>, i: int)
    requires
        0 <= i <= s.len(),
        all_digits(s),
    ensures
        decimal_value(s.take(i)) <= decimal_value(s),
    decreases s.len(),
{
    if i < s.len() {
        assert(s.drop_last().take(i) =~= s.take(i));
        assert(all_digits(s.drop_last()));
        lemma_decimal_value_grows(s.drop_last(), i);
    } else {
        assert(s.take(i) =~= s);
    }
}

/// Parses an unsigned numeral no larger than `max`, as `str::parse` does.
fn parse_unsigned_bounded(t: &Vec<char>, max: u64) -> (r: Option<u64>)
    requires
        max >= 9,
    ensures
        r matches Some(v) ==> parse_unsigned(t@, max as nat) == Some(v as nat),
        r is None ==> parse_unsigned(t@, max as nat) is None,
{
    let len = t.len();
    let mut start: usize = 0;
    if len > 0 && t[0] == '+' {
        start = 1;
    }
    let ghost d = unsigned_digits(t@);
    assert(d =~= t@.subrange(start as int, len as int));
    if start >= len {
        return None;
    }
    let mut value: u64 = 0;
    let mut i: usize = start;
    while i < len
        invariant
            start <= i <= len,
            len == t@.len(),
            d =~= t@.subrange(start as int, len as int),
            all_digits(d.take(i - start)),
            value as nat == decimal_value(d.take(i - start)),
            value <= max,
            max >= 9,
            d == unsigned_digits(t@),
        decreases len - i,
    {
        let c = t[i];
        if !('0' <= c && c <= '9') {
            assert(d[i - start] == t@[i as int]);
            assert(!is_digit_char(d[i - start]));
            return None;
        }
        let digit: u64 = (c as u32 - '0' as u32) as u64;
        assert(digit <= 9);
        assert(digit as nat == digit_value(c));
        assert(d.take(i + 1 - start).drop_last() =~= d.take(i - start));
        assert(d.take(i + 1 - start).last() == c);
        if value > (max - digit) / 10 {
            proof {
                assert(value * 10 + digit > max) by (nonlinear_arith)
                    requires
                        value > (max - digit) / 10,
                        digit <= max,
                ;
                if all_digits(d) {
                    lemma_decimal_value_grows(d, i + 1 - start);
                }
            }
            return None;
        }
        value = value * 10 + digit;
        i = i + 1;
    }
    assert(d.take(len - start) =~= d);
    Some(value)
}

/// Parses a token as a `usize`, with the rules of `str::parse::<usize>`.
pub fn parse_usize_token(t: &Vec<char>) -> (r: Option<usize>)
    ensures
        r == spec_parse_usize(t@),
{
    let max: u64 = usize::MAX as u64;
    match parse_unsigned_bounded(t, max) {
        Some(v) => Some(v as usize),
        None => None,
    }
}

/// Parses a token as a `u32`, with the rules of `str::parse::<u32>`.
pub fn parse_u32_token(t: &Vec<char>) -> (r: Option<u32>)
    ensures
        r == spec_parse_u32(t@),
{
    match parse_unsigned_bounded(t, u32::MAX as u64) {
        Some(v) => Some(v as u32),
        None => None,
    }
}


/// Drops one leading `+` or `-`.
pub open spec fn strip_sign(s: Seq<char>) -> Seq<char> {
    if s.len() > 0 && (s[0] == '+' || s[0] == '-') {
        s.drop_first()
    } else {
        s
    }
}

/// The first index at or after `from` that does not hold a decimal digit.
pub open spec fn digit_run(s: Seq<char>, from: int) -> int
    decreases s.len() - from,
{
    if 0 <= from < s.len() && is_digit_char(s[from]) {
        digit_run(s, from + 1)
    } else {
        from
    }
}

/// `c` is the lower-case letter `lower`, or its upper-case form.
pub open spec fn eq_ignoring_case(c: char, lower: char) -> bool {
    c == lower || ('A' <= c && c <= 'Z' && c as u32 + 32 == lower as u32)
}

pub open spec fn matches_ignoring_case(s: Seq<char>, word: Seq<char>) -> bool {
    s.len() == word.len() && forall|i: int| 0 <= i < s.len() ==> eq_ignoring_case(s[i], word[i])
}

/// `inf`, `infinity` or `nan`, in any case.
pub open spec fn is_special_float(s: Seq<char>) -> bool {
    matches_ignoring_case(s, seq!['i', 'n', 'f'])
        || matches_ignoring_case(s, seq!['i', 'n', 'f', 'i', 'n', 'i', 't', 'y'])
        || matches_ignoring_case(s, seq!['n', 'a', 'n'])
}

/// An exponent part that starts at `at`: `e` or `E`, an optional sign, and
/// one or more digits that run to the end.
pub open spec fn is_exponent_at(s: Seq<char>, at: int) -> bool {
    let after_e = at + 1;
    let digits_from = if after_e < s.len() && (s[after_e] == '+' || s[after_e] == '-') {
        after_e + 1
    } else {
        after_e
    };
    &&& 0 <= at < s.len()
    &&& (s[at] == 'e' || s[at] == 'E')
    &&& digit_run(s, digits_from) == s.len()
    &&& digits_from < s.len()
}

/// `Digit+`, `Digit+ '.' Digit*` or `Digit* '.' Digit+`, then an optional
/// exponent.
pub open spec fn is_decimal_number(s: Seq<char>) -> bool {
    let int_end = digit_run(s, 0);
    let has_point = int_end < s.len() && s[int_end] == '.';
    let frac_end = if has_point {
        digit_run(s, int_end + 1)
    } else {
        int_end
    };
    let digit_count = if has_point {
        frac_end - 1
    } else {
        frac_end
    };
    &&& digit_count > 0
    &&& (frac_end == s.len() || is_exponent_at(s, frac_end))
}

/// The strings that `str::parse::<f64>` (and `str::parse::<f32>`) accept: an
/// optional sign, then `inf`, `infinity` or `nan` in any case, or a decimal
/// number with an optional exponent.
pub open spec fn is_float_literal(s: Seq<char>) -> bool {
    let body = strip_sign(s);
    is_special_float(body) || is_decimal_number(body)
}

proof fn lemma_digit_run_bounds(s: Seq<char>, from: int)
    requires
        0 <= from <= s.len(),
    ensures
        from <= digit_run(s, from) <= s.len(),
        forall|k: int| from <= k < digit_run(s, from) ==> is_digit_char(#[trigger] s[k]),
        digit_run(s, from) < s.len() ==> !is_digit_char(s[digit_run(s, from)]),
    decreases s.len() - from,
{
    if from < s.len() && is_digit_char(s[from]) {
        lemma_digit_run_bounds(s, from + 1);
    }
}

/// The end of the run of digits that starts at `from`.
fn skip_digits(t: &Vec<char>, from: usize) -> (end: usize)
    requires
        from <= t@.len(),
    ensures
        end == digit_run(t@, from as int),
        from <= end <= t@.len(),
{
    proof {
        lemma_digit_run_bounds(t@, from as int);
    }
    let mut i = from;
    while i < t.len() && '0' <= t[i] && t[i] <= '9'
        invariant
            from <= i <= t@.len(),
            digit_run(t@, from as int) == digit_run(t@, i as int),
        decreases t@.len() - i,
    {
        i = i + 1;
    }
    i
}

/// Whether `t`, from `start` on, spells `word` (given in lower case) in any
/// case.
fn matches_word_ignoring_case(t: &Vec<char>, start: usize, word: &[char]) -> (b: bool)
    requires
        start <= t@.len(),
    ensures
        b == matches_ignoring_case(t@.skip(start as int), word@),
{
    let ghost rest = t@.skip(start as int);
    if t.len() - start != word.len() {
        return false;
    }
    let mut i: usize = 0;
    while i < word.len()
        invariant
            rest == t@.skip(start as int),
            rest.len() == word@.len(),
            start + word@.len() == t.len(),
            i <= word@.len(),
            forall|k: int| 0 <= k < i ==> eq_ignoring_case(rest[k], word@[k]),
        decreases word@.len() - i,
    {
        let c = t[start + i];
        let w = word[i];
        assert(rest[i as int] == c);
        let same = c == w || ('A' <= c && c <= 'Z' && c as u32 + 32 == w as u32);
        if !same {
            return false;
        }
        i = i + 1;
    }
    true
}

/// Whether a token is a floating point literal that `str::parse::<f64>`
/// accepts.
pub fn is_float_token(t: &Vec<char>) -> (b: bool)
    ensures
        b == is_float_literal(t@),
{
    let n = t.len();
    let mut start: usize = 0;
    if n > 0 && (t[0] == '+' || t[0] == '-') {
        start = 1;
    }
    let ghost body = strip_sign(t@);
    assert(body =~= t@.skip(start as int));
    let inf = ['i', 'n', 'f'];
    let infinity = ['i', 'n', 'f', 'i', 'n', 'i', 't', 'y'];
    let nan = ['n', 'a', 'n'];
    assert(inf@ =~= seq!['i', 'n', 'f']);
    assert(infinity@ =~= seq!['i', 'n', 'f', 'i', 'n', 'i', 't', 'y']);
    assert(nan@ =~= seq!['n', 'a', 'n']);
    if matches_word_ignoring_case(t, start, &inf) || matches_word_ignoring_case(t, start, &infinity)
        || matches_word_ignoring_case(t, start, &nan) {
        return true;
    }
    is_decimal_from(t, start)
}

/// Whether `t`, from `start` on, is a decimal number with an optional
/// exponent.
fn is_decimal_from(t: &Vec<char>, start: usize) -> (b: bool)
    requires
        start <= t@.len(),
    ensures
        b == is_decimal_number(t@.skip(start as int)),
{
    let ghost s = t@.skip(start as int);
    let n = t.len();
    proof {
        lemma_digit_run_shift(t@, start as int, start as int);
    }
    let int_end = skip_digits(t, start);
    let has_point = int_end < n && t[int_end] == '.';
    let frac_end = if has_point {
        proof {
            lemma_digit_run_shift(t@, start as int, int_end + 1);
        }
        skip_digits(t, int_end + 1)
    } else {
        int_end
    };
    let digit_count = if has_point {
        frac_end - start - 1
    } else {
        frac_end - start
    };
    if digit_count == 0 {
        return false;
    }
    if frac_end == n {
        return true;
    }
    if t[frac_end] != 'e' && t[frac_end] != 'E' {
        return false;
    }
    let after_e = frac_end + 1;
    let digits_from = if after_e < n && (t[after_e] == '+' || t[after_e] == '-') {
        after_e + 1
    } else {
        after_e
    };
    proof {
        lemma_digit_run_shift(t@, start as int, digits_from as int);
    }
    let exp_end = skip_digits(t, digits_from);
    exp_end == n && digits_from < n
}

/// Digit runs measured in a suffix are those of the whole, shifted.
proof fn lemma_digit_run_shift(t: Seq<char>, start: int, from: int)
    requires
        0 <= start <= from <= t.len(),
    ensures
        digit_run(t.skip(start), from - start) == digit_run(t, from) - start,
    decreases t.len() - from,
{
    if from < t.len() && is_digit_char(t[from]) {
        assert(t.skip(start)[from - start] == t[from]);
        lemma_digit_run_shift(t, start, from + 1);
    }
}


/// The characters of an optional token.
pub open spec fn opt_chars(t: Option<Vec<char>>) -> Option<Seq<char>> {
    match t {
        Some(v) => Some(v@),
        None => None,
    }
}

/// `String::push`: appends one character.
#[verifier::external_body]
fn string_push(s: &mut String, c: char)
    ensures
        final(s)@ == old(s)@.push(c),
{
    s.push(c);
}

/// The character of a decimal digit.
pub open spec fn digit_char(d: nat) -> char {
    if d == 0 {
        '0'
    } else if d == 1 {
        '1'
    } else if d == 2 {
        '2'
    } else if d == 3 {
        '3'
    } else if d == 4 {
        '4'
    } else if d == 5 {
        '5'
    } else if d == 6 {
        '6'
    } else if d == 7 {
        '7'
    } else if d == 8 {
        '8'
    } else {
        '9'
    }
}

/// The decimal numeral of `n`, without leading zeros.
pub open spec fn decimal_text(n: nat) -> Seq<char>
    decreases n,
{
    if n < 10 {
        seq![digit_char(n)]
    } else {
        decimal_text(n / 10).push(digit_char(n % 10))
    }
}

/// The numeral of `n` is a nonempty run of digits whose value is `n`.
pub proof fn lemma_decimal_text(n: nat)
    ensures
        decimal_text(n).len() > 0,
        all_digits(decimal_text(n)),
        decimal_value(decimal_text(n)) == n,
    decreases n,
{
    let d = n % 10;
    assert(is_digit_char(digit_char(d)) && digit_value(digit_char(d)) == d) by {
        assert(d < 10);
        if d == 0 {} else if d == 1 {} else if d == 2 {} else if d == 3 {} else if d == 4 {}
        else if d == 5 {} else if d == 6 {} else if d == 7 {} else if d == 8 {} else {}
    }
    if n < 10 {
        assert(n % 10 == n);
        let t = decimal_text(n);
        assert(t.drop_last() =~= Seq::<char>::empty());
        assert(decimal_value(t.drop_last()) == 0);
        assert(t.last() == digit_char(d));
    } else {
        lemma_decimal_text(n / 10);
        let t = decimal_text(n);
        let front = decimal_text(n / 10);
        assert(t.drop_last() =~= front);
        assert(t.last() == digit_char(d));
        assert(n == (n / 10) * 10 + d) by (nonlinear_arith)
            requires
                d == n % 10,
        ;
        assert forall|i: int| 0 <= i < t.len() implies is_digit_char(#[trigger] t[i]) by {
            if i < front.len() {
                assert(t[i] == front[i]);
            }
        }
    }
}

/// `str::parse::<u32>` reads the numeral of a `u32` back.
pub proof fn lemma_parse_decimal_u32(n: u32)
    ensures
        spec_parse_u32(decimal_text(n as nat)) == Some(n),
{
    lemma_decimal_text(n as nat);
    let t = decimal_text(n as nat);
    assert(is_digit_char(t[0]));
    assert(unsigned_digits(t) == t);
}

fn digit_to_char(d: usize) -> (c: char)
    requires
        d < 10,
    ensures
        c == digit_char(d as nat),
{
    if d == 0 {
        '0'
    } else if d == 1 {
        '1'
    } else if d == 2 {
        '2'
    } else if d == 3 {
        '3'
    } else if d == 4 {
        '4'
    } else if d == 5 {
        '5'
    } else if d == 6 {
        '6'
    } else if d == 7 {
        '7'
    } else if d == 8 {
        '8'
    } else {
        '9'
    }
}

/// Appends the decimal numeral of `n`.
pub fn push_decimal(s: &mut String, n: usize)
    ensures
        final(s)@ == old(s)@ + decimal_text(n as nat),
    decreases n,
{
    if n >= 10 {
        push_decimal(s, n / 10);
    }
    string_push(s, digit_to_char(n % 10));
    proof {
        if n < 10 {
            assert(old(s)@ + decimal_text(n as nat) =~= old(s)@.push(digit_char(n as nat)));
        } else {
            assert(old(s)@ + decimal_text(n as nat) =~= (old(s)@ + decimal_text((n / 10) as nat)).push(
                digit_char((n % 10) as nat),
            ));
        }
    }
}


/// A `String` holding the given characters.
pub fn chars_to_string(t: &[char]) -> (s: String)
    ensures
        s@ == t@,
{
    let mut s = String::new();
    let mut i: usize = 0;
    while i < t.len()
        invariant
            i <= t@.len(),
            s@ == t@.take(i as int),
        decreases t@.len() - i,
    {
        string_push(&mut s, t[i]);
        assert(t@.take(i + 1) =~= t@.take(i as int).push(t@[i as int]));
        i = i + 1;
    }
    assert(t@.take(t@.len() as int) =~= t@);
    s
}

/// The characters of a string slice.
pub fn str_to_chars(s: &str) -> (out: Vec<char>)
    ensures
        out@ == s@,
{
    let mut out: Vec<char> = Vec::new();
    for c in it: s.chars()
        invariant
            out@ == it.seq().take(it.index() as int),
    {
        out.push(c);
    }
    out
}

/// Whether a token spells `tag` exactly.
pub fn token_is(t: &[char], tag: &str) -> (b: bool)
    ensures
        b == (t@ == tag@),
{
    let n = tag.unicode_len();
    if t.len() != n {
        return false;
    }
    let mut i: usize = 0;
    while i < n
        invariant
            n == tag@.len(),
            t@.len() == n,
            i <= n,
            forall|k: int| 0 <= k < i ==> t@[k] == tag@[k],
        decreases n - i,
    {
        if t[i] != tag.get_char(i) {
            return false;
        }
        i = i + 1;
    }
    assert(t@ =~= tag@);
    true
}

/// A copy of the characters `t[from..to]`.
pub fn copy_range(t: &Vec<char>, from: usize, to: usize) -> (out: Vec<char>)
    requires
        from <= to <= t@.len(),
    ensures
        out@ == t@.subrange(from as int, to as int),
{
    let part = slice_subrange(t.as_slice(), from, to);
    slice_to_vec(part)
}


/// A `String` holding the text of `a`.
pub fn text_of(a: &str) -> (s: String)
    ensures
        s@ == a@,
{
    <String as StringExecFns>::from_str(a)
}

/// The message `a`, then the characters `b`.
pub fn concat2(a: &str, b: &[char]) -> (s: String)
    ensures
        s@ == a@ + b@,
{
    let mut s = <String as StringExecFns>::from_str(a);
    let rest = chars_to_string(b);
    s.append(rest.as_str());
    s
}

/// The message `a`, then the characters `b`, then `c`.
pub fn concat3(a: &str, b: &[char], c: &str) -> (s: String)
    ensures
        s@ == a@ + b@ + c@,
{
    let mut s = <String as StringExecFns>::from_str(a);
    let middle = chars_to_string(b);
    s.append(middle.as_str());
    s.append(c);
    s
}

/// The message `a`, then `b`, then `c`, then `d`, then `e`.
pub fn concat5(a: &str, b: &[char], c: &str, d: &[char], e: &str) -> (s: String)
    ensures
        s@ == a@ + b@ + c@ + d@ + e@,
{
    let mut s = concat3(a, b, c);
    let fourth = chars_to_string(d);
    s.append(fourth.as_str());
    s.append(e);
    s
}

/// How a parse error reads to the user: the line it was found on, then its
/// message.
pub open spec fn error_report(line: nat, message: Seq<char>) -> Seq<char> {
    "Parse error at line "@ + decimal_text(line) + ": "@ + message
}

/// The text of `error_report`.
pub fn report_text(line: usize, message: &str) -> (s: String)
    ensures
        s@ == error_report(line as nat, message@),
{
    let mut s = String::new();
    s.append("Parse error at line ");
    push_decimal(&mut s, line);
    s.append(": ");
    s.append(message);
    assert(s@ =~= error_report(line as nat, message@));
    s
}

} // verus!

//! Characters and strings: trimming, decimal numbers, JSON Pointer escaping and
//! terminal-safe text.

use vstd::prelude::*;

verus! {

broadcast use vstd::string::group_string_axioms;

// ---------------------------------------------------------------------------
// Character classes
// ---------------------------------------------------------------------------

/// The Unicode White_Space property: U+0009..=U+000D, U+0020, U+0085, U+00A0, U+1680,
/// U+2000..=U+200A, U+2028, U+2029, U+202F, U+205F and U+3000.
pub open spec fn white_space(c: char) -> bool {
    let n = c as u32;
    ||| 0x09 <= n <= 0x0d
    ||| n == 0x20
    ||| n == 0x85
    ||| n == 0xa0
    ||| n == 0x1680
    ||| 0x2000 <= n <= 0x200a
    ||| n == 0x2028
    ||| n == 0x2029
    ||| n == 0x202f
    ||| n == 0x205f
    ||| n == 0x3000
}

/// Whether `c` has the Unicode White_Space property, as `char::is_whitespace` answers.
fn is_whitespace(c: char) -> (r: bool)
    ensures
        r == white_space(c),
{
    let n = c as u32;
    (0x09 <= n && n <= 0x0d) || n == 0x20 || n == 0x85 || n == 0xa0 || n == 0x1680 || (0x2000 <= n && n
        <= 0x200a) || n == 0x2028 || n == 0x2029 || n == 0x202f || n == 0x205f || n == 0x3000
}

/// Unicode general category Cc: U+0000..=U+001F and U+007F..=U+009F.
pub open spec fn control_char(c: char) -> bool {
    (c as u32) <= 0x1f || (0x7f <= (c as u32) && (c as u32) <= 0x9f)
}

/// No character of `s` is a control character, except the line feed.
pub open spec fn raw_control_free(s: Seq<char>) -> bool {
    forall|i: int| 0 <= i < s.len() ==> control_char(#[trigger] s[i]) ==> s[i] == '\n'
}

/// Joining two texts free of raw control characters gives such a text.
pub proof fn lemma_join_raw_control_free(a: Seq<char>, b: Seq<char>)
    requires
        raw_control_free(a),
        raw_control_free(b),
    ensures
        raw_control_free(a + b),
{
    assert forall|i: int| 0 <= i < (a + b).len() && control_char(#[trigger] (a + b)[i]) implies (a + b)[i]
        == '\n' by {
        if i < a.len() {
            assert((a + b)[i] == a[i]);
        } else {
            assert((a + b)[i] == b[i - a.len()]);
        }
    }
}

/// Printable ASCII, U+0020..=U+007E.
pub open spec fn printable_ascii(c: char) -> bool {
    0x20 <= (c as u32) && (c as u32) <= 0x7e
}

/// Whether `c` is a control character (general category Cc), as `char::is_control` answers.
fn is_control(c: char) -> (r: bool)
    ensures
        r == control_char(c),
{
    let n = c as u32;
    n <= 0x1f || (0x7f <= n && n <= 0x9f)
}

/// What `char::escape_default` yields for `c`.
pub uninterp spec fn escape_default_of(c: char) -> Seq<char>;

/// The value of a hexadecimal digit, in either case.
pub open spec fn hex_digit_value(d: char) -> int {
    let n = d as u32;
    if 0x30 <= n <= 0x39 {
        n - 0x30
    } else if 0x61 <= n <= 0x66 {
        n - 0x61 + 10
    } else {
        n - 0x41 + 10
    }
}

/// A hexadecimal digit, in either case.
pub open spec fn hex_digit(d: char) -> bool {
    let n = d as u32;
    (0x30 <= n <= 0x39) || (0x61 <= n <= 0x66) || (0x41 <= n <= 0x46)
}

/// The value of a string of hexadecimal digits.
pub open spec fn hex_value(digits: Seq<char>) -> int
    decreases digits.len(),
{
    if digits.len() == 0 {
        0
    } else {
        hex_value(digits.drop_last()) * 16 + hex_digit_value(digits.last())
    }
}

/// Calls `char::escape_default` and collects it. Claimed, as its documentation states: the
/// result is `escape_default_of(c)`; tab, carriage return and line feed become `\t`, `\r` and
/// `\n`; every character of every escape lies in printable ASCII (a backslash escape, a
/// `\u{NNNN}` hexadecimal escape, or the character itself when it is printable ASCII); any
/// other control character becomes `\u{NNNN}`, where `NNNN` is a hexadecimal representation of
/// its code point. Whether those digits are lower case, and how many there are, is left
/// unsaid, as the documentation leaves it.
#[verifier::external_body]
fn escape_default(c: char) -> (r: String)
    ensures
        r@ == escape_default_of(c),
        c == '\t' ==> r@ == seq!['\\', 't'],
        c == '\r' ==> r@ == seq!['\\', 'r'],
        c == '\n' ==> r@ == seq!['\\', 'n'],
        control_char(c) && c != '\t' && c != '\r' && c != '\n' ==> {
            &&& r@.len() >= 4
            &&& r@[0] == '\\'
            &&& r@[1] == 'u'
            &&& r@[2] == '{'
            &&& r@.last() == '}'
            &&& forall|i: int| 3 <= i < r@.len() - 1 ==> hex_digit(#[trigger] r@[i])
            &&& hex_value(r@.subrange(3, r@.len() - 1)) == c as u32
        },
        r@.len() > 0,
        forall|i: int| 0 <= i < r@.len() ==> printable_ascii(#[trigger] r@[i]),
{
    c.escape_default().to_string()
}

/// Calls `String::push`: appends `c`.
#[verifier::external_body]
pub(crate) fn push_char(s: &mut String, c: char)
    ensures
        final(s)@ == old(s)@.push(c),
{
    s.push(c);
}

// ---------------------------------------------------------------------------
// Strings as sequences of characters
// ---------------------------------------------------------------------------

/// The characters of `s`, in order.
pub fn chars_of(s: &str) -> (r: Vec<char>)
    ensures
        r@ == s@,
{
    let mut r: Vec<char> = Vec::new();
    for c in it: s.chars()
        invariant
            it.seq() == s@,
            r@ == s@.take(it.index() as int),
    {
        r.push(c);
    }
    r
}

/// The string made of `v[from..to]`.
pub fn string_of(v: &Vec<char>, from: usize, to: usize) -> (r: String)
    requires
        from <= to <= v@.len(),
    ensures
        r@ == v@.subrange(from as int, to as int),
{
    let mut r = String::new();
    let mut i = from;
    while i < to
        invariant
            from <= i <= to <= v@.len(),
            r@ == v@.subrange(from as int, i as int),
        decreases to - i,
    {
        push_char(&mut r, v[i]);
        i += 1;
    }
    r
}

/// `a` followed by `b`.
pub fn concat(a: &str, b: &str) -> (r: String)
    ensures
        r@ == a@ + b@,
{
    let mut r = String::from_str(a);
    r.append(b);
    r
}

// ---------------------------------------------------------------------------
// Trimming
// ---------------------------------------------------------------------------

/// `s` without its leading white space.
pub open spec fn trim_start(s: Seq<char>) -> Seq<char>
    decreases s.len(),
{
    if s.len() > 0 && white_space(s[0]) {
        trim_start(s.drop_first())
    } else {
        s
    }
}

/// `s` without its trailing white space.
pub open spec fn trim_end(s: Seq<char>) -> Seq<char>
    decreases s.len(),
{
    if s.len() > 0 && white_space(s.last()) {
        trim_end(s.drop_last())
    } else {
        s
    }
}

/// `s` without leading and trailing white space, as `str::trim` documents it.
pub open spec fn trim(s: Seq<char>) -> Seq<char> {
    trim_end(trim_start(s))
}

proof fn lemma_trim_start_skip(s: Seq<char>, i: int)
    requires
        0 <= i < s.len(),
        white_space(s[i]),
    ensures
        trim_start(s.skip(i)) == trim_start(s.skip(i + 1)),
{
    assert(s.skip(i).drop_first() =~= s.skip(i + 1));
}

proof fn lemma_trim_end_take(s: Seq<char>, j: int)
    requires
        0 < j <= s.len(),
        white_space(s[j - 1]),
    ensures
        trim_end(s.take(j)) == trim_end(s.take(j - 1)),
{
    assert(s.take(j).drop_last() =~= s.take(j - 1));
}

proof fn lemma_trim_start_drops_a_prefix(s: Seq<char>) -> (i: int)
    ensures
        0 <= i <= s.len(),
        trim_start(s) == s.skip(i),
        forall|k: int| 0 <= k < i ==> white_space(#[trigger] s[k]),
        i < s.len() ==> !white_space(s[i]),
    decreases s.len(),
{
    if s.len() > 0 && white_space(s[0]) {
        let t = s.drop_first();
        let i0 = lemma_trim_start_drops_a_prefix(t);
        assert(t.skip(i0) =~= s.skip(i0 + 1));
        assert forall|k: int| 0 <= k < i0 + 1 implies white_space(#[trigger] s[k]) by {
            if k > 0 {
                assert(s[k] == t[k - 1]);
            }
        }
        if i0 < t.len() {
            assert(s[i0 + 1] == t[i0]);
        }
        i0 + 1
    } else {
        assert(s.skip(0) =~= s);
        0
    }
}

proof fn lemma_trim_end_drops_a_suffix(s: Seq<char>) -> (j: int)
    ensures
        0 <= j <= s.len(),
        trim_end(s) == s.take(j),
        forall|k: int| j <= k < s.len() ==> white_space(#[trigger] s[k]),
        j > 0 ==> !white_space(s[j - 1]),
    decreases s.len(),
{
    if s.len() > 0 && white_space(s.last()) {
        let t = s.drop_last();
        let j0 = lemma_trim_end_drops_a_suffix(t);
        assert(t.take(j0) =~= s.take(j0));
        assert forall|k: int| j0 <= k < s.len() implies white_space(#[trigger] s[k]) by {
            if k < s.len() - 1 {
                assert(s[k] == t[k]);
            }
        }
        if j0 > 0 {
            assert(s[j0 - 1] == t[j0 - 1]);
        }
        j0
    } else {
        assert(s.take(s.len() as int) =~= s);
        s.len() as int
    }
}

/// Trimming removes white space at both ends and nothing else: the result is a contiguous
/// part of `s`, everything before and after it is white space, and it neither begins nor ends
/// with white space.
pub proof fn trim_removes_only_outer_white_space(s: Seq<char>)
    ensures
        exists|i: int, j: int|
            0 <= i <= j <= s.len() && trim(s) == s.subrange(i, j) && (forall|k: int|
                0 <= k < i ==> white_space(#[trigger] s[k])) && (forall|k: int|
                j <= k < s.len() ==> white_space(#[trigger] s[k])),
        trim(s).len() > 0 ==> !white_space(trim(s)[0]) && !white_space(trim(s).last()),
{
    let i = lemma_trim_start_drops_a_prefix(s);
    let w = s.skip(i);
    let j = lemma_trim_end_drops_a_suffix(w);
    assert(trim(s) == w.take(j));
    assert(w.take(j) =~= s.subrange(i, i + j));
    assert forall|k: int| i + j <= k < s.len() implies white_space(#[trigger] s[k]) by {
        assert(s[k] == w[k - i]);
    }
    if j > 0 {
        assert(trim(s)[0] == s[i]);
        assert(trim(s).last() == w[j - 1]);
    }
}

/// The bounds `(i, j)` of `trim(v)` within `v`.
fn trim_bounds(v: &Vec<char>) -> (r: (usize, usize))
    ensures
        r.0 <= r.1 <= v@.len(),
        v@.subrange(r.0 as int, r.1 as int) == trim(v@),
{
    let n = v.len();
    let mut i: usize = 0;
    assert(v@.skip(0) =~= v@);
    while i < n && is_whitespace(v[i])
        invariant
            i <= n == v@.len(),
            trim_start(v@) == trim_start(v@.skip(i as int)),
        decreases n - i,
    {
        proof {
            lemma_trim_start_skip(v@, i as int);
        }
        i += 1;
    }
    assert(trim_start(v@) == v@.skip(i as int)) by {
        if i < n {
            assert(v@.skip(i as int)[0] == v@[i as int]);
        }
    }
    let ghost w = v@.skip(i as int);
    let mut j: usize = n;
    assert(w.take(n - i) =~= w);
    while j > i && is_whitespace(v[j - 1])
        invariant
            i <= j <= n == v@.len(),
            w == v@.skip(i as int),
            trim_end(w) == trim_end(w.take(j - i)),
        decreases j,
    {
        proof {
            assert(w[j - i - 1] == v@[j - 1]);
            lemma_trim_end_take(w, j - i);
        }
        j -= 1;
    }
    assert(trim_end(w.take(j - i)) == w.take(j - i)) by {
        if j > i {
            assert(w.take(j - i).last() == v@[j - 1]);
        }
    }
    assert(w.take(j - i) =~= v@.subrange(i as int, j as int));
    (i, j)
}

/// `str::trim`, returned as an owned string.
pub fn trimmed(s: &str) -> (r: String)
    ensures
        r@ == trim(s@),
{
    let v = chars_of(s);
    let (i, j) = trim_bounds(&v);
    string_of(&v, i, j)
}

// ---------------------------------------------------------------------------
// Decimal numbers
// ---------------------------------------------------------------------------

/// The decimal digit character for `d < 10`.
pub open spec fn digit_char(d: nat) -> char {
    (48 + d) as char
}

/// The decimal representation of `n`, without sign or leading zeros.
pub open spec fn decimal(n: nat) -> Seq<char>
    decreases n,
{
    if n < 10 {
        seq![digit_char(n)]
    } else {
        decimal(n / 10).push(digit_char(n % 10))
    }
}

/// Appends the decimal representation of `n` to `s`.
pub fn push_decimal(s: &mut String, n: u128)
    ensures
        final(s)@ == old(s)@ + decimal(n as nat),
        raw_control_free(old(s)@) ==> raw_control_free(final(s)@),
    decreases n,
{
    if n >= 10 {
        push_decimal(s, n / 10);
    }
    let d = (n % 10) as u8;
    let c = (48u8 + d) as char;
    assert(c == digit_char((n % 10) as nat));
    assert(!control_char(c));
    let ghost before = s@;
    push_char(s, c);
    proof {
        if raw_control_free(before) {
            lemma_join_raw_control_free(before, seq![c]);
            assert(before + seq![c] =~= s@);
        }
    }
    assert(final(s)@ == old(s)@ + decimal(n as nat)) by {
        if n >= 10 {
            assert(decimal(n as nat) == decimal((n / 10) as nat).push(digit_char((n % 10) as nat)));
        }
    }
}

// ---------------------------------------------------------------------------
// JSON Pointer escaping
// ---------------------------------------------------------------------------

/// How one character of a member name is written in a JSON Pointer token (RFC 6901):
/// `~` becomes `~0` and `/` becomes `~1`.
pub open spec fn pointer_piece(c: char) -> Seq<char> {
    if c == '~' {
        seq!['~', '0']
    } else if c == '/' {
        seq!['~', '1']
    } else {
        seq![c]
    }
}

/// `s` escaped as a JSON Pointer token.
pub open spec fn pointer_token(s: Seq<char>) -> Seq<char>
    decreases s.len(),
{
    if s.len() == 0 {
        seq![]
    } else {
        pointer_token(s.drop_last()) + pointer_piece(s.last())
    }
}

/// The member name that a JSON Pointer token stands for: `~0` is `~` and `~1` is `/`, read
/// from the end of the token.
pub open spec fn unescape_pointer_token(t: Seq<char>) -> Seq<char>
    decreases t.len(),
{
    if t.len() == 0 {
        seq![]
    } else if t.len() >= 2 && t[t.len() - 2] == '~' {
        unescape_pointer_token(t.take(t.len() - 2)).push(if t.last() == '0' { '~' } else { '/' })
    } else {
        unescape_pointer_token(t.drop_last()).push(t.last())
    }
}

/// Escaping a name as a JSON Pointer token loses nothing and leaves no `/` in it: the token
/// reads back as the name, so different names give different tokens.
pub proof fn pointer_tokens_read_back(s: Seq<char>)
    ensures
        unescape_pointer_token(pointer_token(s)) == s,
        forall|i: int| 0 <= i < pointer_token(s).len() ==> #[trigger] pointer_token(s)[i] != '/',
        pointer_token(s).len() > 0 ==> pointer_token(s).last() != '~',
    decreases s.len(),
{
    if s.len() > 0 {
        let d = s.drop_last();
        let c = s.last();
        let t = pointer_token(d);
        let p = pointer_piece(c);
        pointer_tokens_read_back(d);
        let whole = pointer_token(s);
        assert(whole == t + p);
        assert(d.push(c) =~= s);
        assert forall|i: int| 0 <= i < whole.len() implies #[trigger] whole[i] != '/' by {
            if i < t.len() {
                assert(whole[i] == t[i]);
            } else {
                assert(whole[i] == p[i - t.len()]);
            }
        }
        if c == '~' || c == '/' {
            assert(whole.take(whole.len() - 2) =~= t);
            assert(whole[whole.len() - 2] == '~');
        } else {
            assert(whole.drop_last() =~= t);
            if t.len() > 0 {
                assert(whole[whole.len() - 2] == t.last());
            }
        }
    }
}

/// Appends `name`, escaped as a JSON Pointer token, to `s`.
pub fn push_pointer_token(s: &mut String, name: &Vec<char>)
    ensures
        final(s)@ == old(s)@ + pointer_token(name@),
{
    let mut i: usize = 0;
    assert(name@.take(0) =~= Seq::<char>::empty());
    while i < name.len()
        invariant
            i <= name@.len(),
            s@ == old(s)@ + pointer_token(name@.take(i as int)),
        decreases name.len() - i,
    {
        let c = name[i];
        if c == '~' {
            push_char(s, '~');
            push_char(s, '0');
        } else if c == '/' {
            push_char(s, '~');
            push_char(s, '1');
        } else {
            push_char(s, c);
        }
        assert(name@.take(i + 1).drop_last() =~= name@.take(i as int));
        assert(s@ =~= old(s)@ + pointer_token(name@.take(i + 1)));
        i += 1;
    }
    assert(name@.take(name@.len() as int) =~= name@);
}

// ---------------------------------------------------------------------------
// Terminal-safe text
// ---------------------------------------------------------------------------

/// How one character is shown on a terminal: control characters by their default escape,
/// every other character as itself.
pub open spec fn terminal_piece(c: char) -> Seq<char> {
    if control_char(c) {
        escape_default_of(c)
    } else {
        seq![c]
    }
}

/// `s` with every control character replaced by its default escape.
pub open spec fn terminal_form(s: Seq<char>) -> Seq<char>
    decreases s.len(),
{
    if s.len() == 0 {
        seq![]
    } else {
        terminal_form(s.drop_last()) + terminal_piece(s.last())
    }
}

/// `text` with every control character (general category Cc) replaced by its
/// `char::escape_default` form, so that it cannot drive a terminal: the result holds no
/// control character.
pub fn terminal_text(text: &str) -> (r: String)
    ensures
        r@ == terminal_form(text@),
        forall|i: int| 0 <= i < r@.len() ==> !control_char(#[trigger] r@[i]),
        raw_control_free(r@),
{
    let v = chars_of(text);
    let mut r = String::new();
    let mut i: usize = 0;
    assert(v@.take(0) =~= Seq::<char>::empty());
    while i < v.len()
        invariant
            i <= v@.len(),
            v@ == text@,
            r@ == terminal_form(v@.take(i as int)),
            forall|k: int| 0 <= k < r@.len() ==> !control_char(#[trigger] r@[k]),
        decreases v.len() - i,
    {
        let c = v[i];
        let ghost before = r@;
        if is_control(c) {
            let e = escape_default(c);
            r.append(e.as_str());
            assert forall|k: int| 0 <= k < r@.len() implies !control_char(#[trigger] r@[k]) by {
                if k >= before.len() {
                    assert(r@[k] == e@[k - before.len()]);
                } else {
                    assert(r@[k] == before[k]);
                }
            }
        } else {
            push_char(&mut r, c);
            assert forall|k: int| 0 <= k < r@.len() implies !control_char(#[trigger] r@[k]) by {
                if k < before.len() {
                    assert(r@[k] == before[k]);
                }
            }
        }
        assert(v@.take(i + 1).drop_last() =~= v@.take(i as int));
        assert(r@ =~= terminal_form(v@.take(i + 1)));
        i += 1;
    }
    assert(v@.take(v@.len() as int) =~= v@);
    r
}

/// Text without control characters is shown as it is.
pub proof fn terminal_form_keeps_plain_text(s: Seq<char>)
    requires
        forall|i: int| 0 <= i < s.len() ==> !control_char(#[trigger] s[i]),
    ensures
        terminal_form(s) == s,
    decreases s.len(),
{
    if s.len() > 0 {
        terminal_form_keeps_plain_text(s.drop_last());
        assert(s.drop_last().push(s.last()) =~= s);
    }
}

} // verus!

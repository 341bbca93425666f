//! Character-level text helpers shared by the parsers and formatters.
use vstd::prelude::*;
use vstd::std_specs::iter::IteratorSpec;

verus! {

/// `String::push` appends one character at the end.
pub assume_specification[ String::push ](s: &mut String, ch: char)
    ensures
        final(s)@ == old(s)@.push(ch),
;

/// The characters of `s`, in order.
pub fn chars_of(s: &str) -> (r: Vec<char>)
    ensures
        r@ == s@,
{
    broadcast use vstd::string::group_string_axioms;
    let mut out: Vec<char> = Vec::new();
    let mut it = s.chars();
    loop
        invariant
            out@ + it.remaining() == s@,
        ensures
            out@ == s@,
        decreases s@.len() - out@.len(),
    {
        match it.next() {
            Some(c) => {
                out.push(c);
            },
            None => {
                break;
            },
        }
    }
    out
}

/// A `String` holding exactly the characters of `v`.
pub fn string_of(v: &Vec<char>) -> (r: String)
    ensures
        r@ == v@,
{
    let mut s = String::new();
    let mut i: usize = 0;
    while i < v.len()
        invariant
            i <= v.len(),
            s@ == v@.take(i as int),
        decreases v.len() - i,
    {
        s.push(v[i]);
        i += 1;
        assert(s@ == v@.take(i as int));
    }
    assert(v@.take(v.len() as int) == v@);
    s
}


/// Equality of two character sequences.
pub fn chars_eq(a: &Vec<char>, b: &Vec<char>) -> (r: bool)
    ensures
        r == (a@ == b@),
{
    if a.len() != b.len() {
        return false;
    }
    let mut i: usize = 0;
    while i < a.len()
        invariant
            a.len() == b.len(),
            i <= a.len(),
            forall|k: int| 0 <= k < i ==> a@[k] == b@[k],
        decreases a.len() - i,
    {
        if a[i] != b[i] {
            return false;
        }
        i += 1;
    }
    assert(a@ =~= b@);
    true
}

/// Equality of the characters of two string slices.
pub fn str_eq(a: &str, b: &str) -> (r: bool)
    ensures
        r == (a@ == b@),
{
    let x = chars_of(a);
    let y = chars_of(b);
    chars_eq(&x, &y)
}

/// The characters of `s` from index `lo` up to (not including) `hi`.
pub fn slice_chars(s: &Vec<char>, lo: usize, hi: usize) -> (r: Vec<char>)
    requires
        lo <= hi <= s.len(),
    ensures
        r@ == s@.subrange(lo as int, hi as int),
{
    let mut out: Vec<char> = Vec::new();
    let mut i: usize = lo;
    while i < hi
        invariant
            lo <= i <= hi <= s.len(),
            out@ == s@.subrange(lo as int, i as int),
        decreases hi - i,
    {
        out.push(s[i]);
        i += 1;
        assert(out@ =~= s@.subrange(lo as int, i as int));
    }
    out
}

/// Appends all characters of `b` to `a`.
pub fn extend_chars(a: &mut Vec<char>, b: &Vec<char>)
    ensures
        final(a)@ == old(a)@ + b@,
{
    let mut i: usize = 0;
    while i < b.len()
        invariant
            i <= b.len(),
            a@ == old(a)@ + b@.take(i as int),
        decreases b.len() - i,
    {
        a.push(b[i]);
        i += 1;
        assert(a@ =~= old(a)@ + b@.take(i as int));
    }
    assert(b@.take(b.len() as int) =~= b@);
}

// ---------------------------------------------------------------------------
// Unicode whitespace (the `White_Space` property, as `char::is_whitespace`)
// ---------------------------------------------------------------------------

/// `c` has the Unicode `White_Space` property.
pub open spec fn is_ws(c: char) -> bool {
    let u = c as u32;
    ||| 0x09 <= u <= 0x0d
    ||| u == 0x20
    ||| u == 0x85
    ||| u == 0xa0
    ||| u == 0x1680
    ||| 0x2000 <= u <= 0x200a
    ||| u == 0x2028
    ||| u == 0x2029
    ||| u == 0x202f
    ||| u == 0x205f
    ||| u == 0x3000
}

/// Whether `c` is a whitespace character.
pub fn is_whitespace(c: char) -> (r: bool)
    ensures
        r == is_ws(c),
{
    let u = c as u32;
    (0x09 <= u && u <= 0x0d) || u == 0x20 || u == 0x85 || u == 0xa0 || u == 0x1680 || (0x2000
        <= u && u <= 0x200a) || u == 0x2028 || u == 0x2029 || u == 0x202f || u == 0x205f || u
        == 0x3000
}

/// `s` without its leading whitespace.
pub open spec fn trim_start(s: Seq<char>) -> Seq<char>
    decreases s.len(),
{
    if s.len() > 0 && is_ws(s[0]) {
        trim_start(s.drop_first())
    } else {
        s
    }
}

/// `s` without its trailing whitespace.
pub open spec fn trim_end(s: Seq<char>) -> Seq<char>
    decreases s.len(),
{
    if s.len() > 0 && is_ws(s.last()) {
        trim_end(s.drop_last())
    } else {
        s
    }
}

/// `s` without leading and trailing whitespace (`str::trim`).
pub open spec fn trim(s: Seq<char>) -> Seq<char> {
    trim_end(trim_start(s))
}

/// Index of the first character of `s` that is not whitespace, as found
/// from position `i` on.
fn skip_ws(s: &Vec<char>, i: usize) -> (r: usize)
    requires
        i <= s.len(),
    ensures
        i <= r <= s.len(),
        trim_start(s@.subrange(i as int, s.len() as int)) == s@.subrange(r as int, s.len() as int),
        r < s.len() ==> !is_ws(s@[r as int]),
        forall|k: int| i <= k < r ==> is_ws(#[trigger] s@[k]),
{
    let mut j = i;
    while j < s.len() && is_whitespace(s[j])
        invariant
            i <= j <= s.len(),
            trim_start(s@.subrange(i as int, s.len() as int)) == trim_start(
                s@.subrange(j as int, s.len() as int),
            ),
            forall|k: int| i <= k < j ==> is_ws(#[trigger] s@[k]),
        decreases s.len() - j,
    {
        assert(s@.subrange(j as int, s.len() as int).drop_first() =~= s@.subrange(
            j + 1,
            s.len() as int,
        ));
        j += 1;
    }
    j
}

/// The characters of `s` with leading and trailing whitespace removed.
pub fn trim_chars(s: &Vec<char>) -> (r: Vec<char>)
    ensures
        r@ == trim(s@),
{
    let a = skip_ws(s, 0);
    assert(s@.subrange(0, s.len() as int) =~= s@);
    let mut b = s.len();
    while b > a && is_whitespace(s[b - 1])
        invariant
            a <= b <= s.len(),
            trim_end(s@.subrange(a as int, s.len() as int)) == trim_end(
                s@.subrange(a as int, b as int),
            ),
        decreases b,
    {
        assert(s@.subrange(a as int, b as int).drop_last() =~= s@.subrange(
            a as int,
            b - 1,
        ));
        b -= 1;
    }
    slice_chars(s, a, b)
}

/// Length of the run of non-whitespace characters at the start of `s`.
pub open spec fn word_len(s: Seq<char>) -> nat
    decreases s.len(),
{
    if s.len() > 0 && !is_ws(s[0]) {
        1 + word_len(s.drop_first())
    } else {
        0
    }
}

/// The first item of `str::split_whitespace` on `s` together with the text
/// after it, or `None` when `s` holds only whitespace.
pub open spec fn next_word(s: Seq<char>) -> Option<(Seq<char>, Seq<char>)> {
    let t = trim_start(s);
    if t.len() == 0 {
        None
    } else {
        Some((t.take(word_len(t) as int), t.skip(word_len(t) as int)))
    }
}

/// The next whitespace-separated word of `s` at or after position `i`,
/// with the position just after it.
pub fn next_word_at(s: &Vec<char>, i: usize) -> (r: Option<(Vec<char>, usize)>)
    requires
        i <= s.len(),
    ensures
        match next_word(s@.subrange(i as int, s.len() as int)) {
            None => r is None,
            Some((w, rest)) => r matches Some((v, e)) && v@ == w && e <= s.len() && rest
                == s@.subrange(e as int, s.len() as int),
        },
{
    let a = skip_ws(s, i);
    if a == s.len() {
        return None;
    }
    let ghost t = s@.subrange(a as int, s.len() as int);
    let mut b = a;
    while b < s.len() && !is_whitespace(s[b])
        invariant
            a <= b <= s.len(),
            t == s@.subrange(a as int, s.len() as int),
            word_len(t) == (b - a) + word_len(s@.subrange(b as int, s.len() as int)),
        decreases s.len() - b,
    {
        assert(s@.subrange(b as int, s.len() as int).drop_first() =~= s@.subrange(
            b + 1,
            s.len() as int,
        ));
        b += 1;
    }
    assert(word_len(s@.subrange(b as int, s.len() as int)) == 0);
    assert(t.take(word_len(t) as int) =~= s@.subrange(a as int, b as int));
    assert(t.skip(word_len(t) as int) =~= s@.subrange(b as int, s.len() as int));
    Some((slice_chars(s, a, b), b))
}

// ---------------------------------------------------------------------------
// Unicode lower-casing
// ---------------------------------------------------------------------------

/// What `str::to_lowercase` returns for a string with characters `s`.
pub uninterp spec fn lowercase_of(s: Seq<char>) -> Seq<char>;

/// Every character of `s` is ASCII.
pub open spec fn all_ascii(s: Seq<char>) -> bool {
    forall|i: int| 0 <= i < s.len() ==> (#[trigger] s[i] as u32) < 128
}

/// The ASCII lower-case of `c`: `A`..`Z` become `a`..`z`, anything else
/// stays.
pub open spec fn ascii_lower_char(c: char) -> char {
    if 65 <= (c as u32) <= 90 {
        ((c as u32) + 32) as char
    } else {
        c
    }
}

/// `s` with each character ASCII lower-cased.
pub open spec fn ascii_lower(s: Seq<char>) -> Seq<char> {
    s.map_values(|c: char| ascii_lower_char(c))
}

/// Calls `str::to_lowercase`; the result is `lowercase_of` of the input,
/// a function of the characters alone (the Unicode lowercase mapping, which
/// std applies without locale). On ASCII text the mapping is the ASCII one:
/// `A`..`Z` become `a`..`z` and every other character stays.
#[verifier::external_body]
pub fn lowercase(s: &str) -> (r: String)
    ensures
        r@ == lowercase_of(s@),
        all_ascii(s@) ==> r@ == ascii_lower(s@),
{
    s.to_lowercase()
}

/// The lower-cased characters of `v`.
pub fn lowercase_chars(v: &Vec<char>) -> (r: Vec<char>)
    ensures
        r@ == lowercase_of(v@),
        all_ascii(v@) ==> r@ == ascii_lower(v@),
{
    let s = string_of(v);
    let l = lowercase(s.as_str());
    chars_of(l.as_str())
}

// ---------------------------------------------------------------------------
// Substring search
// ---------------------------------------------------------------------------

/// `needle` occurs in `hay` at position `i`.
pub open spec fn occurs_at(hay: Seq<char>, needle: Seq<char>, i: int) -> bool {
    0 <= i && i + needle.len() <= hay.len() && hay.subrange(i, i + needle.len()) == needle
}

/// `needle` occurs somewhere in `hay` (`str::contains` with a string pattern).
pub open spec fn contains(hay: Seq<char>, needle: Seq<char>) -> bool {
    exists|i: int| occurs_at(hay, needle, i)
}

/// Whether `needle` occurs in `hay`.
pub fn contains_chars(hay: &Vec<char>, needle: &Vec<char>) -> (r: bool)
    ensures
        r == contains(hay@, needle@),
{
    if needle.len() > hay.len() {
        return false;
    }
    let last = hay.len() - needle.len();
    let mut i: usize = 0;
    while i <= last
        invariant
            last == hay.len() - needle.len(),
            i <= last + 1,
            forall|k: int| 0 <= k < i ==> !occurs_at(hay@, needle@, k),
        decreases last + 1 - i,
    {
        let mut j: usize = 0;
        let mut same = true;
        while j < needle.len()
            invariant
                i <= last,
                last == hay.len() - needle.len(),
                j <= needle.len(),
                same == (forall|k: int| 0 <= k < j ==> hay@[i + k] == needle@[k]),
            decreases needle.len() - j,
        {
            if hay[i + j] != needle[j] {
                same = false;
            }
            j += 1;
        }
        if same {
            assert(hay@.subrange(i as int, i + needle.len()) =~= needle@);
            assert(occurs_at(hay@, needle@, i as int));
            return true;
        }
        assert(!occurs_at(hay@, needle@, i as int)) by {
            if occurs_at(hay@, needle@, i as int) {
                assert(forall|k: int|
                    0 <= k < needle.len() ==> hay@[i + k] == #[trigger] hay@.subrange(
                        i as int,
                        i + needle.len(),
                    )[k]);
            }
        }
        i += 1;
    }
    assert forall|k: int| !occurs_at(hay@, needle@, k) by {
        if 0 <= k && k + needle.len() <= hay.len() {
            assert(k < i);
        }
    }
    false
}


// ---------------------------------------------------------------------------
// Decimal numbers
// ---------------------------------------------------------------------------

/// The ASCII digit for `d` (below ten).
pub open spec fn digit_char(d: nat) -> char {
    (d + 48) as char
}

/// The decimal representation of `n`, without leading zeros.
pub open spec fn decimal(n: nat) -> Seq<char>
    decreases n,
{
    if n < 10 {
        seq![digit_char(n)]
    } else {
        decimal(n / 10).push(digit_char(n % 10))
    }
}

/// Appends the decimal representation of `n` to `out`.
pub fn push_decimal(out: &mut Vec<char>, n: u64)
    ensures
        final(out)@ == old(out)@ + decimal(n as nat),
    decreases n,
{
    if n >= 10 {
        push_decimal(out, n / 10);
    }
    let d = (n % 10) as u8;
    out.push((d + 48) as char);
    assert(old(out)@ + decimal(n as nat) =~= out@);
}

/// Two-digit, zero-padded form of a number below 100 (`{:02}`).
pub open spec fn two_digits(n: nat) -> Seq<char> {
    if n < 10 {
        seq!['0'].push(digit_char(n))
    } else {
        decimal(n)
    }
}

/// Appends `n` zero-padded to two digits.
pub fn push_two_digits(out: &mut Vec<char>, n: u64)
    requires
        n < 100,
    ensures
        final(out)@ == old(out)@ + two_digits(n as nat),
{
    if n < 10 {
        out.push('0');
    }
    push_decimal(out, n);
    assert(final(out)@ =~= old(out)@ + two_digits(n as nat)) by {
        if n < 10 {
            assert(decimal(n as nat) == seq![digit_char(n as nat)]);
        }
    }
}

/// `c` is an ASCII decimal digit.
pub open spec fn is_digit(c: char) -> bool {
    48 <= (c as u32) <= 57
}

/// The value of a string of decimal digits (most significant first).
pub open spec fn digits_value(s: Seq<char>) -> nat
    decreases s.len(),
{
    if s.len() == 0 {
        0
    } else {
        digits_value(s.drop_last()) * 10 + ((s.last() as u32) - 48) as nat
    }
}

/// Every character of `s` is an ASCII digit.
pub open spec fn all_digits(s: Seq<char>) -> bool {
    forall|i: int| 0 <= i < s.len() ==> is_digit(#[trigger] s[i])
}

/// What `str::parse::<u32>` gives for the text `s`: an optional `+`, then
/// one or more ASCII digits whose value fits in a `u32`.
pub open spec fn u32_of(s: Seq<char>) -> Option<u32> {
    let d = if s.len() > 0 && s[0] == '+' {
        s.drop_first()
    } else {
        s
    };
    if d.len() > 0 && all_digits(d) && digits_value(d) <= u32::MAX {
        Some(digits_value(d) as u32)
    } else {
        None
    }
}

proof fn lemma_digits_value_grows(s: Seq<char>, i: int)
    requires
        0 <= i <= s.len(),
        forall|k: int| 0 <= k < s.len() ==> is_digit(#[trigger] s[k]),
    ensures
        digits_value(s.take(i)) <= digits_value(s),
    decreases s.len() - i,
{
    if i < s.len() {
        lemma_digits_value_grows(s, i + 1);
        assert(s.take(i + 1).drop_last() =~= s.take(i));
    } else {
        assert(s.take(i) =~= s);
    }
}

/// Parses `s` as `str::parse::<u32>` does.
pub fn parse_u32(s: &Vec<char>) -> (r: Option<u32>)
    ensures
        r == u32_of(s@),
{
    let start: usize = if s.len() > 0 && s[0] == '+' {
        1
    } else {
        0
    };
    let ghost d = if s@.len() > 0 && s@[0] == '+' {
        s@.drop_first()
    } else {
        s@
    };
    assert(d =~= s@.subrange(start as int, s.len() as int));
    if start == s.len() {
        return None;
    }
    let mut acc: u64 = 0;
    let mut i = start;
    while i < s.len()
        invariant
            start <= i <= s.len(),
            d == s@.subrange(start as int, s.len() as int),
            d == (if s@.len() > 0 && s@[0] == '+' {
                s@.drop_first()
            } else {
                s@
            }),
            d.len() > 0,
            forall|k: int| 0 <= k < i - start ==> is_digit(#[trigger] d[k]),
            acc == digits_value(d.take(i - start)),
            acc <= u32::MAX,
        decreases s.len() - i,
    {
        let c = s[i];
        if !(48 <= (c as u32) && (c as u32) <= 57) {
            assert(!is_digit(d[i - start]));
            return None;
        }
        assert(d.take(i - start + 1).drop_last() =~= d.take(i - start));
        acc = acc * 10 + ((c as u32) - 48) as u64;
        i += 1;
        if acc > 0xffff_ffff {
            proof {
                if all_digits(d) {
                    lemma_digits_value_grows(d, i - start);
                }
            }
            return None;
        }
    }
    assert(d.take(i - start) =~= d);
    Some(acc as u32)
}


// ---------------------------------------------------------------------------
// Splitting at a character
// ---------------------------------------------------------------------------

/// Index of the first `c` in `s`, or the length of `s` when there is none.
pub open spec fn index_of(s: Seq<char>, c: char) -> nat
    decreases s.len(),
{
    if s.len() == 0 || s[0] == c {
        0
    } else {
        1 + index_of(s.drop_first(), c)
    }
}

pub proof fn lemma_index_of_bound(s: Seq<char>, c: char)
    ensures
        index_of(s, c) <= s.len(),
        index_of(s, c) < s.len() ==> s[index_of(s, c) as int] == c,
        forall|k: int| 0 <= k < index_of(s, c) ==> s[k] != c,
    decreases s.len(),
{
    if s.len() > 0 && s[0] != c {
        lemma_index_of_bound(s.drop_first(), c);
        assert forall|k: int| 0 <= k < index_of(s, c) implies s[k] != c by {
            if k > 0 {
                assert(s[k] == s.drop_first()[k - 1]);
            }
        }
    }
}

/// Position of the first `c` in `s` at or after `from`, or the length.
pub fn find_char(s: &Vec<char>, from: usize, c: char) -> (r: usize)
    requires
        from <= s.len(),
    ensures
        from <= r <= s.len(),
        r - from == index_of(s@.subrange(from as int, s.len() as int), c),
{
    let mut j = from;
    while j < s.len() && s[j] != c
        invariant
            from <= j <= s.len(),
            index_of(s@.subrange(from as int, s.len() as int), c) == (j - from) + index_of(
                s@.subrange(j as int, s.len() as int),
                c,
            ),
        decreases s.len() - j,
    {
        assert(s@.subrange(j as int, s.len() as int).drop_first() =~= s@.subrange(
            j + 1,
            s.len() as int,
        ));
        j += 1;
    }
    j
}

/// The first two items of `str::split(':')` on `s`; `None` when there is
/// no `:` (the iterator then yields a single item).
pub open spec fn colon_pair(s: Seq<char>) -> Option<(Seq<char>, Seq<char>)> {
    let i = index_of(s, ':');
    if i == s.len() {
        None
    } else {
        let rest = s.skip((i + 1) as int);
        Some((s.take(i as int), rest.take(index_of(rest, ':') as int)))
    }
}

/// Splits `s` like the first two steps of `str::split(':')`.
pub fn split_colon(s: &Vec<char>) -> (r: Option<(Vec<char>, Vec<char>)>)
    ensures
        match colon_pair(s@) {
            None => r is None,
            Some((a, b)) => r matches Some((x, y)) && x@ == a && y@ == b,
        },
{
    let i = find_char(s, 0, ':');
    assert(s@.subrange(0, s.len() as int) =~= s@);
    if i == s.len() {
        return None;
    }
    let j = find_char(s, i + 1, ':');
    assert(s@.skip(i + 1) =~= s@.subrange(i + 1, s.len() as int));
    let a = slice_chars(s, 0, i);
    let b = slice_chars(s, i + 1, j);
    assert(s@.take(i as int) =~= s@.subrange(0, i as int));
    assert(s@.skip(i + 1).take(j - (i + 1)) =~= s@.subrange(i + 1, j as int));
    Some((a, b))
}

// ---------------------------------------------------------------------------
// Byte-order marks and lines
// ---------------------------------------------------------------------------

/// `s` without any leading U+FEFF (`str::trim_start_matches('\u{feff}')`).
pub open spec fn strip_bom(s: Seq<char>) -> Seq<char>
    decreases s.len(),
{
    if s.len() > 0 && s[0] == '\u{feff}' {
        strip_bom(s.drop_first())
    } else {
        s
    }
}

/// Removes every leading byte-order mark (U+FEFF), as editors such as
/// Notepad prepend one to UTF-8 files.
pub fn strip_bom_chars(s: &Vec<char>) -> (r: Vec<char>)
    ensures
        r@ == strip_bom(s@),
        r@.len() > 0 ==> r@[0] != '\u{feff}',
{
    let mut i: usize = 0;
    assert(s@.subrange(0, s.len() as int) =~= s@);
    while i < s.len() && s[i] == '\u{feff}'
        invariant
            i <= s.len(),
            strip_bom(s@) == strip_bom(s@.subrange(i as int, s.len() as int)),
        decreases s.len() - i,
    {
        assert(s@.subrange(i as int, s.len() as int).drop_first() =~= s@.subrange(
            i + 1,
            s.len() as int,
        ));
        i += 1;
    }
    slice_chars(s, i, s.len())
}

/// A line as `str::lines` yields it: a terminating `\r` is dropped along
/// with the `\n` that ended the line.
pub open spec fn chop_cr(l: Seq<char>) -> Seq<char> {
    if l.len() > 0 && l.last() == '\r' {
        l.drop_last()
    } else {
        l
    }
}

/// The lines of `s` as `str::lines` yields them: split at `\n`, each line
/// ended by `\n` loses a final `\r`, and a final unterminated line is
/// kept as it is (there is none when `s` ends with `\n`).
pub open spec fn lines_of(s: Seq<char>) -> Seq<Seq<char>>
    decreases s.len(),
{
    if s.len() == 0 {
        seq![]
    } else {
        let i = index_of(s, '\n');
        if i == s.len() {
            seq![s]
        } else {
            proof {
                lemma_index_of_bound(s, '\n');
            }
            seq![chop_cr(s.take(i as int))] + lines_of(s.skip((i + 1) as int))
        }
    }
}

/// Splits `s` into lines as `str::lines` does.
pub fn lines(s: &Vec<char>) -> (r: Vec<String>)
    ensures
        r@.len() == lines_of(s@).len(),
        forall|k: int| 0 <= k < r@.len() ==> #[trigger] r@[k]@ == lines_of(s@)[k],
{
    let mut out: Vec<String> = Vec::new();
    let ghost mut done: Seq<Seq<char>> = seq![];
    let mut p: usize = 0;
    assert(s@.subrange(0, s.len() as int) =~= s@);
    while p < s.len()
        invariant
            p <= s.len(),
            out@.len() == done.len(),
            forall|k: int| 0 <= k < out@.len() ==> #[trigger] out@[k]@ == done[k],
            lines_of(s@) == done + lines_of(s@.subrange(p as int, s.len() as int)),
        decreases s.len() - p,
    {
        let ghost rest = s@.subrange(p as int, s.len() as int);
        let e = find_char(s, p, '\n');
        proof {
            lemma_index_of_bound(rest, '\n');
        }
        if e == s.len() {
            let line = slice_chars(s, p, e);
            assert(lines_of(rest) == seq![rest]);
            out.push(string_of(&line));
            proof {
                done = done.push(rest);
            }
            assert(s@.subrange(e as int, s.len() as int) =~= Seq::<char>::empty());
            assert(lines_of(s@) == done + lines_of(s@.subrange(e as int, s.len() as int)));
            p = e;
        } else {
            let mut hi = e;
            if hi > p && s[hi - 1] == '\r' {
                hi = hi - 1;
            }
            let line = slice_chars(s, p, hi);
            assert(rest.take(e - p) =~= s@.subrange(p as int, e as int));
            assert(line@ == chop_cr(rest.take(e - p)));
            assert(rest.skip(e - p + 1) =~= s@.subrange(e + 1, s.len() as int));
            out.push(string_of(&line));
            proof {
                done = done.push(line@);
                assert(done + lines_of(s@.subrange(e + 1, s.len() as int)) =~= done.drop_last()
                    + lines_of(rest));
            }
            p = e + 1;
        }
    }
    assert(s@.subrange(p as int, s.len() as int) =~= Seq::<char>::empty());
    assert(done + Seq::<Seq<char>>::empty() =~= done);
    out
}


// ---------------------------------------------------------------------------
// ASCII lower-casing commutes with the text helpers
// ---------------------------------------------------------------------------

proof fn lemma_lower_len(s: Seq<char>)
    ensures
        ascii_lower(s).len() == s.len(),
        forall|i: int| 0 <= i < s.len() ==> #[trigger] ascii_lower(s)[i] == ascii_lower_char(s[i]),
{
}

proof fn lemma_lower_drop_first(s: Seq<char>)
    requires
        s.len() > 0,
    ensures
        ascii_lower(s).drop_first() == ascii_lower(s.drop_first()),
        ascii_lower(s)[0] == ascii_lower_char(s[0]),
{
    assert(ascii_lower(s).drop_first() =~= ascii_lower(s.drop_first()));
}

/// Lower-casing a lower-cased text changes nothing.
pub(crate) proof fn lemma_lower_idempotent(s: Seq<char>)
    ensures
        ascii_lower(ascii_lower(s)) == ascii_lower(s),
{
    assert(ascii_lower(ascii_lower(s)) =~= ascii_lower(s));
}

/// Taking or skipping a prefix commutes with lower-casing.
pub(crate) proof fn lemma_lower_take_skip(s: Seq<char>, n: int)
    requires
        0 <= n <= s.len(),
    ensures
        ascii_lower(s).take(n) == ascii_lower(s.take(n)),
        ascii_lower(s).skip(n) == ascii_lower(s.skip(n)),
{
    assert(ascii_lower(s).take(n) =~= ascii_lower(s.take(n)));
    assert(ascii_lower(s).skip(n) =~= ascii_lower(s.skip(n)));
}

proof fn lemma_lower_trim_start(s: Seq<char>)
    ensures
        trim_start(ascii_lower(s)) == ascii_lower(trim_start(s)),
    decreases s.len(),
{
    if s.len() > 0 {
        lemma_lower_drop_first(s);
        if is_ws(s[0]) {
            lemma_lower_trim_start(s.drop_first());
        }
    } else {
        assert(ascii_lower(s) =~= s);
    }
}

proof fn lemma_lower_word_len(s: Seq<char>)
    ensures
        word_len(ascii_lower(s)) == word_len(s),
    decreases s.len(),
{
    if s.len() > 0 {
        lemma_lower_drop_first(s);
        lemma_lower_word_len(s.drop_first());
    }
}

proof fn lemma_word_len_le(s: Seq<char>)
    ensures
        word_len(s) <= s.len(),
    decreases s.len(),
{
    if s.len() > 0 && !is_ws(s[0]) {
        lemma_word_len_le(s.drop_first());
    }
}

/// Splitting off the next word commutes with lower-casing.
pub(crate) proof fn lemma_lower_next_word(s: Seq<char>)
    ensures
        next_word(ascii_lower(s)) == match next_word(s) {
            Some((w, rest)) => Some((ascii_lower(w), ascii_lower(rest))),
            None => None,
        },
{
    lemma_lower_trim_start(s);
    let t = trim_start(s);
    lemma_lower_word_len(t);
    lemma_word_len_le(t);
    lemma_lower_len(t);
    if t.len() > 0 {
        lemma_lower_take_skip(t, word_len(t) as int);
    }
}

proof fn lemma_lower_index_of(s: Seq<char>, c: char)
    requires
        !(65 <= (c as u32) <= 90),
        !(97 <= (c as u32) <= 122),
    ensures
        index_of(ascii_lower(s), c) == index_of(s, c),
    decreases s.len(),
{
    if s.len() > 0 {
        lemma_lower_drop_first(s);
        lemma_lower_index_of(s.drop_first(), c);
    }
}

/// Splitting at `:` commutes with lower-casing.
pub(crate) proof fn lemma_lower_colon_pair(s: Seq<char>)
    ensures
        colon_pair(ascii_lower(s)) == match colon_pair(s) {
            Some((a, b)) => Some((ascii_lower(a), ascii_lower(b))),
            None => None,
        },
{
    lemma_lower_index_of(s, ':');
    lemma_lower_len(s);
    lemma_index_of_bound(s, ':');
    let i = index_of(s, ':');
    if i < s.len() {
        lemma_lower_take_skip(s, i as int);
        lemma_lower_take_skip(s, (i + 1) as int);
        let rest = s.skip((i + 1) as int);
        lemma_lower_index_of(rest, ':');
        lemma_index_of_bound(rest, ':');
        lemma_lower_take_skip(rest, index_of(rest, ':') as int);
    }
}

/// Lower-casing does not change what a number's text parses to.
pub(crate) proof fn lemma_lower_u32_of(s: Seq<char>)
    ensures
        u32_of(ascii_lower(s)) == u32_of(s),
{
    lemma_lower_len(s);
    let l = ascii_lower(s);
    let d = if s.len() > 0 && s[0] == '+' {
        s.drop_first()
    } else {
        s
    };
    let dl = if l.len() > 0 && l[0] == '+' {
        l.drop_first()
    } else {
        l
    };
    if s.len() > 0 {
        lemma_lower_drop_first(s);
    }
    assert(dl == ascii_lower(d));
    lemma_lower_len(d);
    assert(all_digits(dl) == all_digits(d)) by {
        if all_digits(d) {
            assert forall|i: int| 0 <= i < dl.len() implies is_digit(#[trigger] dl[i]) by {
                assert(is_digit(d[i]));
            }
        }
        if all_digits(dl) {
            assert forall|i: int| 0 <= i < d.len() implies is_digit(#[trigger] d[i]) by {
                assert(is_digit(dl[i]));
            }
        }
    }
    if all_digits(d) {
        assert(dl =~= d);
    }
}


proof fn lemma_trim_start_ascii(s: Seq<char>)
    requires
        all_ascii(s),
    ensures
        all_ascii(trim_start(s)),
    decreases s.len(),
{
    if s.len() > 0 && is_ws(s[0]) {
        assert forall|i: int| 0 <= i < s.drop_first().len() implies (#[trigger] s.drop_first()[i]
            as u32) < 128 by {
            assert(s.drop_first()[i] == s[i + 1]);
        }
        lemma_trim_start_ascii(s.drop_first());
    }
}

/// The words split off ASCII text are ASCII.
pub(crate) proof fn lemma_next_word_ascii(s: Seq<char>)
    requires
        all_ascii(s),
    ensures
        next_word(s) matches Some((w, rest)) ==> all_ascii(w) && all_ascii(rest),
{
    lemma_trim_start_ascii(s);
    let t = trim_start(s);
    lemma_word_len_le(t);
    if t.len() > 0 {
        let n = word_len(t) as int;
        assert forall|i: int| 0 <= i < t.take(n).len() implies (#[trigger] t.take(n)[i] as u32)
            < 128 by {
            assert(t.take(n)[i] == t[i]);
        }
        assert forall|i: int| 0 <= i < t.skip(n).len() implies (#[trigger] t.skip(n)[i] as u32)
            < 128 by {
            assert(t.skip(n)[i] == t[i + n]);
        }
    }
}

} // verus!

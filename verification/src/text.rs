//! Character-level helpers for string slices: whitespace, trimming and comparison.
use vstd::prelude::*;
use vstd::string::StrSliceExecFns;

verus! {

/// Whether `c` has the Unicode `White_Space` property, which is what
/// `char::is_whitespace` tests.
pub open spec fn is_ws(c: char) -> bool {
    let v = c as u32;
    ||| (0x09 <= v && v <= 0x0d)
    ||| v == 0x20
    ||| v == 0x85
    ||| v == 0xa0
    ||| v == 0x1680
    ||| (0x2000 <= v && v <= 0x200a)
    ||| v == 0x2028
    ||| v == 0x2029
    ||| v == 0x202f
    ||| v == 0x205f
    ||| v == 0x3000
}

/// Executable whitespace test.
pub fn is_whitespace(c: char) -> (r: bool)
    ensures
        r == is_ws(c),
{
    let v = c as u32;
    (0x09 <= v && v <= 0x0d) || v == 0x20 || v == 0x85 || v == 0xa0 || v == 0x1680 || (0x2000
        <= v && v <= 0x200a) || v == 0x2028 || v == 0x2029 || v == 0x202f || v == 0x205f || v
        == 0x3000
}

/// The sequence without its leading whitespace.
pub open spec fn trim_start(s: Seq<char>) -> Seq<char>
    decreases s.len(),
{
    if s.len() > 0 && is_ws(s[0]) {
        trim_start(s.drop_first())
    } else {
        s
    }
}

/// The sequence without its trailing whitespace.
pub open spec fn trim_end(s: Seq<char>) -> Seq<char>
    decreases s.len(),
{
    if s.len() > 0 && is_ws(s.last()) {
        trim_end(s.drop_last())
    } else {
        s
    }
}

/// The sequence without leading and trailing whitespace.
pub open spec fn trim(s: Seq<char>) -> Seq<char> {
    trim_end(trim_start(s))
}

proof fn lemma_trim_start_step(s: Seq<char>, i: int)
    requires
        0 <= i < s.len(),
        is_ws(s[i]),
    ensures
        trim_start(s.subrange(i, s.len() as int)) == trim_start(s.subrange(i + 1, s.len() as int)),
{
    assert(s.subrange(i, s.len() as int).drop_first() =~= s.subrange(i + 1, s.len() as int));
}

proof fn lemma_trim_end_step(s: Seq<char>, j: int)
    requires
        0 < j <= s.len(),
        is_ws(s[j - 1]),
    ensures
        trim_end(s.subrange(0, j)) == trim_end(s.subrange(0, j - 1)),
{
    assert(s.subrange(0, j).drop_last() =~= s.subrange(0, j - 1));
}

/// Number of leading whitespace characters of `s`, starting at `from`.
fn skip_ws(s: &str, from: usize, len: usize) -> (i: usize)
    requires
        len == s@.len(),
        from <= len,
    ensures
        from <= i <= len,
        trim_start(s@.subrange(from as int, len as int)) == s@.subrange(i as int, len as int),
        forall|k: int| from <= k < i ==> is_ws(#[trigger] s@[k]),
        i < len ==> !is_ws(s@[i as int]),
{
    let mut i = from;
    while i < len && is_whitespace(s.get_char(i))
        invariant
            len == s@.len(),
            from <= i <= len,
            trim_start(s@.subrange(from as int, len as int)) == trim_start(
                s@.subrange(i as int, len as int),
            ),
            forall|k: int| from <= k < i ==> is_ws(#[trigger] s@[k]),
        decreases len - i,
    {
        proof {
            lemma_trim_start_step(s@, i as int);
        }
        i = i + 1;
    }
    proof {
        let t = s@.subrange(i as int, len as int);
        if i < len {
            assert(t[0] == s@[i as int]);
        } else {
            assert(t.len() == 0);
        }
    }
    i
}

/// `s` with leading and trailing whitespace removed, as `str::trim` does.
pub fn trim_str(s: &str) -> (r: &str)
    ensures
        r@ == trim(s@),
{
    let len = s.unicode_len();
    proof {
        assert(s@.subrange(0, len as int) =~= s@);
    }
    let a = skip_ws(s, 0, len);
    let mut j = len;
    while j > a && is_whitespace(s.get_char(j - 1))
        invariant
            len == s@.len(),
            a <= j <= len,
            trim_start(s@) == s@.subrange(a as int, len as int),
            trim_end(s@.subrange(a as int, len as int)) == trim_end(
                s@.subrange(a as int, j as int),
            ),
        decreases j,
    {
        proof {
            let t = s@.subrange(a as int, len as int);
            assert(t.subrange(0, j - a) =~= s@.subrange(a as int, j as int));
            assert(t.subrange(0, j - a - 1) =~= s@.subrange(a as int, j - 1));
            lemma_trim_end_step(t, j - a);
        }
        j = j - 1;
    }
    proof {
        let u = s@.subrange(a as int, j as int);
        if j > a {
            assert(u.last() == s@[j - 1]);
        } else {
            assert(u.len() == 0);
        }
    }
    s.substring_char(a, j)
}

/// Index of the first whitespace character of `s`, or its length if there is none.
pub open spec fn ws_index(s: Seq<char>) -> nat
    decreases s.len(),
{
    if s.len() == 0 || is_ws(s[0]) {
        0
    } else {
        1 + ws_index(s.drop_first())
    }
}

proof fn lemma_ws_index_step(s: Seq<char>, k: int)
    requires
        0 <= k < s.len(),
        !is_ws(s[k]),
    ensures
        ws_index(s.subrange(k, s.len() as int)) == 1 + ws_index(s.subrange(k + 1, s.len() as int)),
{
    assert(s.subrange(k, s.len() as int).drop_first() =~= s.subrange(k + 1, s.len() as int));
}

/// Index of the first whitespace character of `s`, or the length of `s`.
pub fn find_ws(s: &str) -> (k: usize)
    ensures
        k == ws_index(s@),
        k <= s@.len(),
        forall|j: int| 0 <= j < k ==> !is_ws(#[trigger] s@[j]),
        k < s@.len() ==> is_ws(s@[k as int]),
{
    let len = s.unicode_len();
    let mut k: usize = 0;
    proof {
        assert(s@.subrange(0, len as int) =~= s@);
    }
    while k < len && !is_whitespace(s.get_char(k))
        invariant
            len == s@.len(),
            k <= len,
            ws_index(s@) == k + ws_index(s@.subrange(k as int, len as int)),
            forall|j: int| 0 <= j < k ==> !is_ws(#[trigger] s@[j]),
        decreases len - k,
    {
        proof {
            lemma_ws_index_step(s@, k as int);
        }
        k = k + 1;
    }
    proof {
        let t = s@.subrange(k as int, len as int);
        if k < len {
            assert(t[0] == s@[k as int]);
        }
    }
    k
}

/// The remainder of `s` after position `from`, with leading whitespace removed.
pub fn trim_start_from(s: &str, from: usize) -> (r: &str)
    requires
        from <= s@.len(),
    ensures
        r@ == trim_start(s@.subrange(from as int, s@.len() as int)),
{
    let len = s.unicode_len();
    let i = skip_ws(s, from, len);
    s.substring_char(i, len)
}

/// Character-wise equality of two string slices.
pub fn str_equal(a: &str, b: &str) -> (r: bool)
    ensures
        r == (a@ == b@),
{
    let n = a.unicode_len();
    let m = b.unicode_len();
    if n != m {
        return false;
    }
    let mut i: usize = 0;
    while i < n
        invariant
            n == a@.len(),
            m == b@.len(),
            n == m,
            i <= n,
            forall|j: int| 0 <= j < i ==> a@[j] == b@[j],
        decreases n - i,
    {
        if a.get_char(i) != b.get_char(i) {
            return false;
        }
        i = i + 1;
    }
    proof {
        assert(a@ =~= b@);
    }
    true
}

/// Whether `prefix` is a prefix of `s`.
pub open spec fn is_prefix_of(prefix: Seq<char>, s: Seq<char>) -> bool {
    prefix.len() <= s.len() && s.subrange(0, prefix.len() as int) == prefix
}

/// Character-wise prefix test, as `str::starts_with` with a string pattern.
pub fn starts_with(s: &str, prefix: &str) -> (r: bool)
    ensures
        r == is_prefix_of(prefix@, s@),
{
    let n = s.unicode_len();
    let m = prefix.unicode_len();
    if m > n {
        return false;
    }
    let mut i: usize = 0;
    while i < m
        invariant
            n == s@.len(),
            m == prefix@.len(),
            m <= n,
            i <= m,
            forall|j: int| 0 <= j < i ==> s@[j] == prefix@[j],
        decreases m - i,
    {
        if s.get_char(i) != prefix.get_char(i) {
            proof {
                assert(s@.subrange(0, m as int)[i as int] != prefix@[i as int]);
            }
            return false;
        }
        i = i + 1;
    }
    proof {
        assert(s@.subrange(0, m as int) =~= prefix@);
    }
    true
}

/// Appends `c` to `s` with `String::push`, which adds the character at the end.
#[verifier::external_body]
pub(crate) fn push_char(s: &mut String, c: char)
    ensures
        final(s)@ == old(s)@.push(c),
{
    s.push(c)
}

/// Removes and returns the last character of `s` with `String::pop`, which
/// returns `None` and leaves `s` unchanged when it is empty.
#[verifier::external_body]
pub(crate) fn pop_char(s: &mut String) -> (r: Option<char>)
    ensures
        old(s)@.len() == 0 ==> r is None && final(s)@ == old(s)@,
        old(s)@.len() > 0 ==> r == Some(old(s)@.last()) && final(s)@ == old(s)@.drop_last(),
{
    s.pop()
}

/// Whether `s` holds a whitespace character.
pub fn contains_ws(s: &str) -> (r: bool)
    ensures
        r == (ws_index(s@) < s@.len()),
        r == (exists|i: int| 0 <= i < s@.len() && is_ws(#[trigger] s@[i])),
{
    let k = find_ws(s);
    k < s.unicode_len()
}

/// Whether `c` is a control character (general category Cc), as `char::is_control` tests.
pub open spec fn is_control(c: char) -> bool {
    (c as u32) <= 0x1f || (0x7f <= (c as u32) && (c as u32) <= 0x9f)
}

/// Executable control character test.
pub fn is_control_char(c: char) -> (r: bool)
    ensures
        r == is_control(c),
{
    let v = c as u32;
    v <= 0x1f || (0x7f <= v && v <= 0x9f)
}

/// The sequence without leading occurrences of `c`.
pub open spec fn strip_start(s: Seq<char>, c: char) -> Seq<char>
    decreases s.len(),
{
    if s.len() > 0 && s[0] == c {
        strip_start(s.drop_first(), c)
    } else {
        s
    }
}

/// The sequence without trailing occurrences of `c`.
pub open spec fn strip_end(s: Seq<char>, c: char) -> Seq<char>
    decreases s.len(),
{
    if s.len() > 0 && s.last() == c {
        strip_end(s.drop_last(), c)
    } else {
        s
    }
}

/// `s` without leading occurrences of `c`, as `str::trim_start_matches` with a
/// character pattern.
pub fn trim_start_matches_char(s: &str, c: char) -> (r: &str)
    ensures
        r@ == strip_start(s@, c),
{
    let len = s.unicode_len();
    let mut i: usize = 0;
    proof {
        assert(s@.subrange(0, len as int) =~= s@);
    }
    while i < len && s.get_char(i) == c
        invariant
            len == s@.len(),
            i <= len,
            strip_start(s@, c) == strip_start(s@.subrange(i as int, len as int), c),
        decreases len - i,
    {
        proof {
            assert(s@.subrange(i as int, len as int).drop_first() =~= s@.subrange(i + 1, len as int));
        }
        i = i + 1;
    }
    proof {
        let t = s@.subrange(i as int, len as int);
        if i < len {
            assert(t[0] == s@[i as int]);
        }
    }
    s.substring_char(i, len)
}

/// `s` without trailing occurrences of `c`, as `str::trim_end_matches` with a
/// character pattern.
pub fn trim_end_matches_char(s: &str, c: char) -> (r: &str)
    ensures
        r@ == strip_end(s@, c),
{
    let len = s.unicode_len();
    let mut j: usize = len;
    proof {
        assert(s@.subrange(0, len as int) =~= s@);
    }
    while j > 0 && s.get_char(j - 1) == c
        invariant
            len == s@.len(),
            j <= len,
            strip_end(s@, c) == strip_end(s@.subrange(0, j as int), c),
        decreases j,
    {
        proof {
            assert(s@.subrange(0, j as int).drop_last() =~= s@.subrange(0, j - 1));
        }
        j = j - 1;
    }
    proof {
        let t = s@.subrange(0, j as int);
        if j > 0 {
            assert(t.last() == s@[j - 1]);
        }
    }
    s.substring_char(0, j)
}

/// Index of the first occurrence of `c` in `s`, or its length.
pub open spec fn char_index(s: Seq<char>, c: char) -> nat
    decreases s.len(),
{
    if s.len() == 0 || s[0] == c {
        0
    } else {
        1 + char_index(s.drop_first(), c)
    }
}

/// Index of the first occurrence of `c` in `s`, or the length of `s`.
pub fn find_char(s: &str, c: char) -> (k: usize)
    ensures
        k == char_index(s@, c),
        k <= s@.len(),
        forall|j: int| 0 <= j < k ==> #[trigger] s@[j] != c,
        k < s@.len() ==> s@[k as int] == c,
{
    let len = s.unicode_len();
    let mut k: usize = 0;
    proof {
        assert(s@.subrange(0, len as int) =~= s@);
    }
    while k < len && s.get_char(k) != c
        invariant
            len == s@.len(),
            k <= len,
            char_index(s@, c) == k + char_index(s@.subrange(k as int, len as int), c),
            forall|j: int| 0 <= j < k ==> #[trigger] s@[j] != c,
        decreases len - k,
    {
        proof {
            assert(s@.subrange(k as int, len as int).drop_first() =~= s@.subrange(k + 1, len as int));
        }
        k = k + 1;
    }
    proof {
        let t = s@.subrange(k as int, len as int);
        if k < len {
            assert(t[0] == s@[k as int]);
        }
    }
    k
}

/// Whether `s` ends with `c`.
pub fn ends_with_char(s: &str, c: char) -> (r: bool)
    ensures
        r == (s@.len() > 0 && s@.last() == c),
{
    let len = s.unicode_len();
    len > 0 && s.get_char(len - 1) == c
}

/// The decimal digit character for `d` in `0..10`.
pub open spec fn digit_char(d: int) -> char {
    if d == 0 {
        '0'
    } else if d == 1 {
        '1'
    } else if d == 2 {
        '2'
    } else if d == 3 {
        '3'
    } else if d == 4 {
        '4'
    } else if d == 5 {
        '5'
    } else if d == 6 {
        '6'
    } else if d == 7 {
        '7'
    } else if d == 8 {
        '8'
    } else {
        '9'
    }
}

/// The decimal representation of `n`, without leading zeros.
pub open spec fn decimal(n: nat) -> Seq<char>
    decreases n,
{
    if n < 10 {
        seq![digit_char(n as int)]
    } else {
        decimal(n / 10).push(digit_char((n % 10) as int))
    }
}

/// The decimal representation of `n`, padded with leading zeros to at least `width` characters.
pub open spec fn zero_padded(n: nat, width: nat) -> Seq<char> {
    if decimal(n).len() < width {
        Seq::new((width - decimal(n).len()) as nat, |i: int| '0') + decimal(n)
    } else {
        decimal(n)
    }
}

/// The character of the decimal digit `d`.
pub fn digit(d: usize) -> (c: char)
    requires
        d < 10,
    ensures
        c == digit_char(d as int),
{
    if d == 0 {
        '0'
    } else if d == 1 {
        '1'
    } else if d == 2 {
        '2'
    } else if d == 3 {
        '3'
    } else if d == 4 {
        '4'
    } else if d == 5 {
        '5'
    } else if d == 6 {
        '6'
    } else if d == 7 {
        '7'
    } else if d == 8 {
        '8'
    } else {
        '9'
    }
}

/// Append the decimal representation of `n` to `s`, as `{}` formats it.
pub fn push_decimal(s: &mut String, n: usize)
    ensures
        final(s)@ == old(s)@ + decimal(n as nat),
    decreases n,
{
    if n >= 10 {
        push_decimal(s, n / 10);
    }
    push_char(s, digit(n % 10));
    proof {
        if n >= 10 {
            assert(decimal(n as nat) == decimal((n / 10) as nat).push(digit_char((n % 10) as int)));
        }
    }
}

/// Append `n` padded with leading zeros to `width` characters, as `{:0w}` formats it.
pub fn push_zero_padded(s: &mut String, n: usize, width: usize)
    ensures
        final(s)@ == old(s)@ + zero_padded(n as nat, width as nat),
{
    let mut digits = String::new();
    push_decimal(&mut digits, n);
    proof {
        assert(digits@ =~= decimal(n as nat));
    }
    let len = digits.as_str().unicode_len();
    let ghost start = s@;
    if len < width {
        let mut i: usize = 0;
        while i < width - len
            invariant
                len < width,
                i <= width - len,
                s@ == start + Seq::new(i as nat, |j: int| '0'),
            decreases width - len - i,
        {
            push_char(s, '0');
            proof {
                assert(Seq::new(i as nat, |j: int| '0').push('0') =~= Seq::new((i + 1) as nat, |j: int| '0'));
            }
            i = i + 1;
        }
    }
    push_str(s, digits.as_str());
    proof {
        if len < width {
            assert(s@ =~= start + (Seq::new((width - len) as nat, |j: int| '0') + decimal(n as nat)));
        } else {
            assert(s@ =~= start + decimal(n as nat));
        }
    }
}

/// Append every character of `t` to `s`.
pub fn push_str(s: &mut String, t: &str)
    ensures
        final(s)@ == old(s)@ + t@,
{
    let n = t.unicode_len();
    let ghost start = s@;
    let mut i: usize = 0;
    while i < n
        invariant
            n == t@.len(),
            i <= n,
            s@ == start + t@.subrange(0, i as int),
        decreases n - i,
    {
        push_char(s, t.get_char(i));
        proof {
            assert(t@.subrange(0, i as int).push(t@[i as int]) =~= t@.subrange(0, i + 1));
        }
        i = i + 1;
    }
    proof {
        assert(t@.subrange(0, n as int) =~= t@);
    }
}

/// Whether `c` is an ASCII decimal digit.
pub open spec fn is_digit(c: char) -> bool {
    '0' <= c && c <= '9'
}

/// The value of the decimal digits `s`.
pub open spec fn digits_value(s: Seq<char>) -> nat
    decreases s.len(),
{
    if s.len() == 0 {
        0
    } else {
        digits_value(s.drop_last()) * 10 + ((s.last() as u32) - ('0' as u32)) as nat
    }
}

/// The number `str::parse::<usize>` reads from `s`: an optional `+`, then one
/// or more decimal digits whose value fits into `usize`; `None` otherwise.
pub open spec fn parsed_usize(s: Seq<char>) -> Option<usize> {
    let d = unsigned_digits(s);
    if d.len() > 0 && (forall|i: int| 0 <= i < d.len() ==> is_digit(#[trigger] d[i])) && digits_value(d)
        <= usize::MAX {
        Some(digits_value(d) as usize)
    } else {
        None
    }
}

/// The text after an optional leading `+`.
pub open spec fn unsigned_digits(s: Seq<char>) -> Seq<char> {
    if s.len() > 0 && s[0] == '+' {
        s.drop_first()
    } else {
        s
    }
}

/// A longer run of digits has at least the value of its prefix.
proof fn lemma_digits_value_prefix(s: Seq<char>, k: int)
    requires
        0 <= k <= s.len(),
        forall|i: int| 0 <= i < s.len() ==> is_digit(#[trigger] s[i]),
    ensures
        digits_value(s.take(k)) <= digits_value(s),
    decreases s.len(),
{
    if k < s.len() {
        assert(s.drop_last().take(k) =~= s.take(k));
        lemma_digits_value_prefix(s.drop_last(), k);
    } else {
        assert(s.take(k) =~= s);
    }
}

/// Read a decimal number as `str::parse::<usize>` does: an optional `+`
/// followed by decimal digits, without overflow.
pub fn parse_usize(s: &str) -> (r: Option<usize>)
    ensures
        r == parsed_usize(s@),
{
    let n = s.unicode_len();
    let start: usize = if n > 0 && s.get_char(0) == '+' { 1 } else { 0 };
    let ghost d = unsigned_digits(s@);
    proof {
        assert(d =~= s@.subrange(start as int, n as int));
    }
    if start == n {
        return None;
    }
    let mut value: usize = 0;
    let mut i: usize = start;
    while i < n
        invariant
            start <= i <= n,
            n == s@.len(),
            start < n,
            d == s@.subrange(start as int, n as int),
            d == unsigned_digits(s@),
            value == digits_value(d.take(i - start)),
            forall|j: int| 0 <= j < i - start ==> is_digit(#[trigger] d[j]),
        decreases n - i,
    {
        let c = s.get_char(i);
        proof {
            assert(d[i - start] == c);
            assert(d.take(i - start + 1).drop_last() =~= d.take(i - start));
            assert(d.take(i - start + 1).last() == c);
        }
        if !('0' <= c && c <= '9') {
            proof {
                assert(!is_digit(d[i - start]));
            }
            return None;
        }
        let digit = (c as u32 - '0' as u32) as usize;
        let next = match value.checked_mul(10) {
            Some(v) => v.checked_add(digit),
            None => None,
        };
        match next {
            Some(v) => {
                value = v;
            },
            None => {
                proof {
                    assert(digits_value(d.take(i - start + 1)) == value * 10 + digit);
                    assert(value * 10 + digit > usize::MAX);
                    if forall|j: int| 0 <= j < d.len() ==> is_digit(#[trigger] d[j]) {
                        lemma_digits_value_prefix(d, i - start + 1);
                    }
                }
                return None;
            },
        }
        i = i + 1;
    }
    proof {
        assert(d.take(i - start) =~= d);
    }
    Some(value)
}

/// The lowercase hexadecimal digit character for `d` in `0..16`.
pub open spec fn hex_char(d: int) -> char {
    if d < 10 {
        digit_char(d)
    } else if d == 10 {
        'a'
    } else if d == 11 {
        'b'
    } else if d == 12 {
        'c'
    } else if d == 13 {
        'd'
    } else if d == 14 {
        'e'
    } else {
        'f'
    }
}

/// `16^k`.
pub open spec fn pow16(k: nat) -> nat
    decreases k,
{
    if k == 0 {
        1
    } else {
        16 * pow16((k - 1) as nat)
    }
}

/// Powers of 16 are positive.
pub proof fn lemma_pow16_positive(k: nat)
    ensures
        pow16(k) >= 1,
    decreases k,
{
    if k > 0 {
        lemma_pow16_positive((k - 1) as nat);
    }
}

/// The last `width` hexadecimal digits of `n`, as `{:0w$x}` formats a number
/// below `16^width`.
pub open spec fn hex_fixed(n: nat, width: nat) -> Seq<char> {
    Seq::new(width, |i: int| hex_char(((n / pow16((width - 1 - i) as nat)) % 16) as int))
}

/// The character of the hexadecimal digit `d`.
fn hex_digit(d: usize) -> (c: char)
    requires
        d < 16,
    ensures
        c == hex_char(d as int),
{
    if d < 10 {
        digit(d)
    } else if d == 10 {
        'a'
    } else if d == 11 {
        'b'
    } else if d == 12 {
        'c'
    } else if d == 13 {
        'd'
    } else if d == 14 {
        'e'
    } else {
        'f'
    }
}

/// Append the last `width` hexadecimal digits of `n` to `s`.
pub fn push_hex_fixed(s: &mut String, n: usize, width: usize)
    requires
        1 <= width <= 8,
    ensures
        final(s)@ == old(s)@ + hex_fixed(n as nat, width as nat),
{
    let ghost start = s@;
    let mut divisor: usize = 1;
    let mut k: usize = 1;
    proof {
        lemma_pow16_monotone(0, 7);
    }
    while k < width
        invariant
            1 <= k <= width <= 8,
            divisor == pow16((k - 1) as nat),
            divisor <= pow16(7),
        decreases width - k,
    {
        proof {
            assert(pow16(k as nat) == 16 * pow16((k - 1) as nat));
            reveal_with_fuel(pow16, 8);
            assert(pow16(7) == 0x1000_0000);
            lemma_pow16_monotone(k as nat, 7);
        }
        divisor = divisor * 16;
        k = k + 1;
    }
    let mut i: usize = 0;
    while i < width
        invariant
            1 <= width <= 8,
            i <= width,
            i < width ==> divisor == pow16((width - 1 - i) as nat),
            s@ == start + hex_fixed(n as nat, width as nat).take(i as int),
        decreases width - i,
    {
        proof {
            lemma_pow16_positive((width - 1 - i) as nat);
        }
        push_char(s, hex_digit((n / divisor) % 16));
        proof {
            assert(hex_fixed(n as nat, width as nat).take(i + 1) =~= hex_fixed(n as nat, width as nat).take(
                i as int,
            ).push(hex_fixed(n as nat, width as nat)[i as int]));
            if i + 1 < width {
                assert(pow16((width - 1 - i) as nat) == 16 * pow16((width - 2 - i) as nat));
            }
        }
        divisor = divisor / 16;
        i = i + 1;
    }
    proof {
        assert(hex_fixed(n as nat, width as nat).take(width as int) =~= hex_fixed(n as nat, width as nat));
    }
}

/// Larger exponents give larger powers of 16.
proof fn lemma_pow16_monotone(a: nat, b: nat)
    requires
        a <= b,
    ensures
        pow16(a) <= pow16(b),
    decreases b,
{
    if a < b {
        lemma_pow16_monotone(a, (b - 1) as nat);
        lemma_pow16_positive((b - 1) as nat);
    }
}

/// `s` padded with spaces to at least `width` characters, as `{:width$}`
/// formats a string.
pub open spec fn padded(s: Seq<char>, width: nat) -> Seq<char> {
    if s.len() < width {
        s + Seq::new((width - s.len()) as nat, |i: int| ' ')
    } else {
        s
    }
}

/// Append `t` padded with spaces to `width` characters.
pub fn push_padded(s: &mut String, t: &str, width: usize)
    ensures
        final(s)@ == old(s)@ + padded(t@, width as nat),
{
    push_str(s, t);
    let len = t.unicode_len();
    let ghost start = s@;
    let mut i = len;
    while i < width
        invariant
            len == t@.len(),
            len <= i <= width || (len > width && i == len),
            s@ == start + Seq::new((i - len) as nat, |j: int| ' '),
        decreases width - i,
    {
        push_char(s, ' ');
        proof {
            assert(Seq::new((i - len) as nat, |j: int| ' ').push(' ') =~= Seq::new((i + 1 - len) as nat, |j: int| ' '));
        }
        i = i + 1;
    }
    proof {
        if len < width {
            assert(s@ =~= old(s)@ + padded(t@, width as nat));
        } else {
            assert(s@ =~= old(s)@ + padded(t@, width as nat));
        }
    }
}

/// `s` preceded by spaces to at least `width` characters, as `{:>width$}`
/// (and `{:width$}` for a number) formats it.
pub open spec fn left_padded(s: Seq<char>, width: nat) -> Seq<char> {
    if s.len() < width {
        Seq::new((width - s.len()) as nat, |i: int| ' ') + s
    } else {
        s
    }
}

/// Append the decimal representation of `n`, preceded by spaces to `width`
/// characters, as `{:width$}` formats a number.
pub fn push_decimal_right(s: &mut String, n: usize, width: usize)
    ensures
        final(s)@ == old(s)@ + left_padded(decimal(n as nat), width as nat),
{
    let mut digits = String::new();
    push_decimal(&mut digits, n);
    proof {
        assert(digits@ =~= decimal(n as nat));
    }
    let len = digits.as_str().unicode_len();
    let ghost start = s@;
    let mut i = len;
    while i < width
        invariant
            len == decimal(n as nat).len(),
            len <= i <= width || (len > width && i == len),
            s@ == start + Seq::new((i - len) as nat, |j: int| ' '),
        decreases width - i,
    {
        push_char(s, ' ');
        proof {
            assert(Seq::new((i - len) as nat, |j: int| ' ').push(' ') =~= Seq::new((i + 1 - len) as nat, |j: int| ' '));
        }
        i = i + 1;
    }
    push_str(s, digits.as_str());
    proof {
        assert(s@ =~= start + left_padded(decimal(n as nat), width as nat));
    }
}

} // verus!

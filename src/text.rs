use vstd::prelude::*;
use vstd::string::*;

verus! {

/// Relies on `String::push`: the character is appended at the end.
#[verifier::external_body]
pub(crate) fn push_char(s: &mut String, c: char)
    ensures
        final(s)@ == old(s)@.push(c),
{
    s.push(c);
}

/// What `str::to_uppercase` returns for a string: it depends on the characters alone.
pub uninterp spec fn upper_of(s: Seq<char>) -> Seq<char>;

/// Relies on `str::to_uppercase` (Unicode upper case mapping).
#[verifier::external_body]
pub(crate) fn to_upper(s: &str) -> (r: String)
    ensures
        r@ == upper_of(s@),
{
    s.to_uppercase()
}

/// A fresh `String` holding exactly the characters of `s`.
pub fn string_from(s: &str) -> (r: String)
    ensures
        r@ == s@,
{
    let mut r = String::new();
    r.append(s);
    r
}

/// The characters of a string slice.
pub fn chars_of(s: &str) -> (r: Vec<char>)
    ensures
        r@ == s@,
{
    let n = s.unicode_len();
    let mut v: Vec<char> = Vec::new();
    let mut i: usize = 0;
    while i < n
        invariant
            n == s@.len(),
            i <= n,
            v@ == s@.subrange(0, i as int),
        decreases n - i,
    {
        v.push(s.get_char(i));
        i += 1;
        assert(v@ =~= s@.subrange(0, i as int));
    }
    assert(v@ =~= s@);
    v
}

/// A `String` made of the given characters.
pub fn string_of_chars(cs: &Vec<char>) -> (r: String)
    ensures
        r@ == cs@,
{
    let mut r = String::new();
    let mut i: usize = 0;
    while i < cs.len()
        invariant
            i <= cs@.len(),
            r@ == cs@.subrange(0, i as int),
        decreases cs.len() - i,
    {
        push_char(&mut r, cs[i]);
        i += 1;
        assert(r@ =~= cs@.subrange(0, i as int));
    }
    assert(r@ =~= cs@);
    r
}

/// The decimal digit character for `d` (taken modulo ten).
pub open spec fn digit_char(d: nat) -> char {
    let d = d % 10;
    if d == 0 {
        '0'
    } else if d == 1 {
        '1'
    } else if d == 2 {
        '2'
    } else if d == 3 {
        '3'
    } else if d == 4 {
        '4'
    } else if d == 5 {
        '5'
    } else if d == 6 {
        '6'
    } else if d == 7 {
        '7'
    } else if d == 8 {
        '8'
    } else {
        '9'
    }
}

/// The value of a decimal digit character, if it is one.
pub open spec fn digit_value(c: char) -> Option<nat> {
    if c == '0' {
        Some(0)
    } else if c == '1' {
        Some(1)
    } else if c == '2' {
        Some(2)
    } else if c == '3' {
        Some(3)
    } else if c == '4' {
        Some(4)
    } else if c == '5' {
        Some(5)
    } else if c == '6' {
        Some(6)
    } else if c == '7' {
        Some(7)
    } else if c == '8' {
        Some(8)
    } else if c == '9' {
        Some(9)
    } else {
        None
    }
}

/// Decimal notation of a natural number, without leading zeros.
pub open spec fn decimal(n: nat) -> Seq<char>
    decreases n,
{
    if n < 10 {
        seq![digit_char(n)]
    } else {
        decimal(n / 10).push(digit_char(n % 10))
    }
}

pub fn digit_to_char(d: u64) -> (c: char)
    requires
        d < 10,
    ensures
        c == digit_char(d as nat),
{
    if d == 0 {
        '0'
    } else if d == 1 {
        '1'
    } else if d == 2 {
        '2'
    } else if d == 3 {
        '3'
    } else if d == 4 {
        '4'
    } else if d == 5 {
        '5'
    } else if d == 6 {
        '6'
    } else if d == 7 {
        '7'
    } else if d == 8 {
        '8'
    } else {
        '9'
    }
}

/// Appends the decimal notation of `n`.
pub fn push_decimal(s: &mut String, n: u64)
    ensures
        final(s)@ == old(s)@ + decimal(n as nat),
    decreases n,
{
    if n >= 10 {
        push_decimal(s, n / 10);
    }
    push_char(s, digit_to_char(n % 10));
    assert(decimal(n as nat) == if n < 10 {
        seq![digit_char(n as nat)]
    } else {
        decimal((n / 10) as nat).push(digit_char((n % 10) as nat))
    });
    assert(digit_char((n % 10) as nat) == digit_char(n as nat));
}

/// `n` in decimal, as a new string.
pub fn decimal_string(n: u64) -> (r: String)
    ensures
        r@ == decimal(n as nat),
{
    let mut s = String::new();
    push_decimal(&mut s, n);
    assert(s@ =~= decimal(n as nat));
    s
}

/// `n` copies of the character `c`.
pub open spec fn repeat_char(c: char, n: nat) -> Seq<char> {
    Seq::new(n, |i: int| c)
}

/// `t` followed by spaces up to `width` characters (left aligned, never cut).
pub open spec fn pad_right(t: Seq<char>, width: nat) -> Seq<char> {
    if t.len() >= width {
        t
    } else {
        t + repeat_char(' ', (width - t.len()) as nat)
    }
}

/// `t` preceded by zeros up to `width` characters (never cut).
pub open spec fn pad_zeros(t: Seq<char>, width: nat) -> Seq<char> {
    if t.len() >= width {
        t
    } else {
        repeat_char('0', (width - t.len()) as nat) + t
    }
}

/// Appends `n` copies of `c`.
pub fn push_repeated(s: &mut String, c: char, n: usize)
    ensures
        final(s)@ == old(s)@ + repeat_char(c, n as nat),
{
    let ghost start = s@;
    let mut i: usize = 0;
    while i < n
        invariant
            i <= n,
            s@ == start + repeat_char(c, i as nat),
        decreases n - i,
    {
        push_char(s, c);
        i += 1;
        assert(s@ =~= start + repeat_char(c, i as nat));
    }
}

/// Appends `t`, then spaces up to `width` characters.
pub fn push_padded(s: &mut String, t: &str, width: usize)
    ensures
        final(s)@ == old(s)@ + pad_right(t@, width as nat),
{
    let ghost start = s@;
    s.append(t);
    let n = t.unicode_len();
    if n < width {
        push_repeated(s, ' ', width - n);
    }
    assert(s@ =~= start + pad_right(t@, width as nat));
}

/// Appends the decimal notation of `n`, zero-padded to `width` characters.
pub fn push_decimal_zero_padded(s: &mut String, n: u64, width: usize)
    ensures
        final(s)@ == old(s)@ + pad_zeros(decimal(n as nat), width as nat),
{
    let ghost start = s@;
    let d = decimal_string(n);
    let len = d.as_str().unicode_len();
    if len < width {
        push_repeated(s, '0', width - len);
    }
    s.append(d.as_str());
    assert(s@ =~= start + pad_zeros(decimal(n as nat), width as nat));
}

/// Whether two strings hold the same characters.
pub fn str_eq(a: &str, b: &str) -> (r: bool)
    ensures
        r == (a@ == b@),
{
    let n = a.unicode_len();
    if n != b.unicode_len() {
        return false;
    }
    let mut i: usize = 0;
    while i < n
        invariant
            n == a@.len(),
            n == b@.len(),
            i <= n,
            forall|k: int| 0 <= k < i ==> a@[k] == b@[k],
        decreases n - i,
    {
        if a.get_char(i) != b.get_char(i) {
            return false;
        }
        i += 1;
    }
    assert(a@ =~= b@);
    true
}

/// Whether `s` begins with `p`.
pub fn has_prefix(s: &str, p: &str) -> (r: bool)
    ensures
        r == (p@.len() <= s@.len() && s@.subrange(0, p@.len() as int) == p@),
{
    let n = p.unicode_len();
    if n > s.unicode_len() {
        return false;
    }
    let mut i: usize = 0;
    while i < n
        invariant
            n == p@.len(),
            n <= s@.len(),
            i <= n,
            forall|k: int| 0 <= k < i ==> s@[k] == p@[k],
        decreases n - i,
    {
        if s.get_char(i) != p.get_char(i) {
            assert(s@.subrange(0, n as int)[i as int] != p@[i as int]);
            return false;
        }
        i += 1;
    }
    assert(s@.subrange(0, n as int) =~= p@);
    true
}

/// The characters of each string in a list.
pub open spec fn texts(v: Seq<String>) -> Seq<Seq<char>> {
    v.map_values(|s: String| s@)
}

/// Whether the list holds a string with the characters of `t`.
pub fn contains_text(v: &Vec<String>, t: &str) -> (r: bool)
    ensures
        r == texts(v@).contains(t@),
{
    let mut i: usize = 0;
    while i < v.len()
        invariant
            i <= v@.len(),
            forall|k: int| 0 <= k < i ==> v@[k]@ != t@,
        decreases v.len() - i,
    {
        if str_eq(v[i].as_str(), t) {
            assert(texts(v@)[i as int] == t@);
            return true;
        }
        i += 1;
    }
    assert forall|k: int| 0 <= k < texts(v@).len() implies texts(v@)[k] != t@ by {
        assert(texts(v@)[k] == v@[k]@);
    }
    false
}

/// What `str::to_lowercase` returns for a string: it depends on the characters alone.
pub uninterp spec fn lower_of(s: Seq<char>) -> Seq<char>;

/// Relies on `str::to_lowercase` (Unicode lower case mapping).
#[verifier::external_body]
pub(crate) fn to_lower(s: &str) -> (r: String)
    ensures
        r@ == lower_of(s@),
{
    s.to_lowercase()
}

/// `needle` occurs in `hay` (the empty needle occurs everywhere).
pub open spec fn occurs_in(hay: Seq<char>, needle: Seq<char>) -> bool {
    exists|i: int| 0 <= i <= hay.len() - needle.len() && #[trigger] hay.subrange(i, i + needle.len()) == needle
}

/// Whether `needle` occurs in `hay`.
pub fn has_substring(hay: &str, needle: &str) -> (r: bool)
    ensures
        r == occurs_in(hay@, needle@),
{
    let h = chars_of(hay);
    let n = chars_of(needle);
    if n.len() > h.len() {
        return false;
    }
    let last = h.len() - n.len();
    let mut i: usize = 0;
    while i <= last
        invariant
            h@ == hay@,
            n@ == needle@,
            last == h@.len() - n@.len(),
            h@.len() <= usize::MAX,
            i <= last,
            forall|j: int| 0 <= j < i ==> #[trigger] h@.subrange(j, j + n@.len()) != n@,
        decreases last - i,
    {
        let mut k: usize = 0;
        let mut same = true;
        while k < n.len()
            invariant
                h@ == hay@,
                n@ == needle@,
                i <= last,
                last == h@.len() - n@.len(),
                h@.len() <= usize::MAX,
                k <= n@.len(),
                same == forall|m: int| 0 <= m < k ==> h@[i + m] == n@[m],
            decreases n.len() - k,
        {
            if h[i + k] != n[k] {
                same = false;
            }
            k += 1;
        }
        if same {
            assert(h@.subrange(i as int, i + n@.len()) =~= n@);
            return true;
        }
        proof {
            assert(!(forall|m: int| 0 <= m < n@.len() ==> h@[i + m] == n@[m]));
            let m = choose|m: int| 0 <= m < n@.len() && h@[i + m] != n@[m];
            assert(h@.subrange(i as int, i + n@.len())[m] != n@[m]);
        }
        if i == last {
            return false;
        }
        i += 1;
    }
    false
}

} // verus!

//! Searching, cutting and building text, seen as a sequence of characters.

use vstd::prelude::*;

verus! {

/// `String::push` appends one character.
pub assume_specification[ String::push ](s: &mut String, c: char)
    ensures
        final(s)@ == old(s)@.push(c),
;

// ---------------------------------------------------------------------------
// Between strings and character sequences
// ---------------------------------------------------------------------------

/// The characters of `s`.
pub fn chars_of(s: &str) -> (v: Vec<char>)
    ensures
        v@ == s@,
{
    let mut v: Vec<char> = Vec::new();
    for c in it: s.chars()
        invariant
            v@ == it.seq().take(it.index()),
            it.seq() == s@,
    {
        v.push(c);
    }
    v
}

/// The text of a string that may be missing.
pub open spec fn opt_text(s: Option<String>) -> Option<Seq<char>> {
    match s {
        Some(s) => Some(s@),
        None => None,
    }
}

/// The string made of the characters `v`.
pub fn text_of(v: &[char]) -> (s: String)
    ensures
        s@ == v@,
{
    let mut s = String::new();
    let mut i: usize = 0;
    while i < v.len()
        invariant
            i <= v@.len(),
            s@ == v@.take(i as int),
        decreases v@.len() - i,
    {
        s.push(v[i]);
        i += 1;
        assert(s@ =~= v@.take(i as int));
    }
    assert(s@ =~= v@);
    s
}

/// Appends a copy of `more`.
pub fn push_chars(out: &mut Vec<char>, more: &[char])
    ensures
        final(out)@ == old(out)@ + more@,
{
    out.extend_from_slice(more);
    assert(out@ =~= old(out)@ + more@);
}

/// Appends the characters of `more`.
pub fn push_text(out: &mut Vec<char>, more: &str)
    ensures
        final(out)@ == old(out)@ + more@,
{
    let v = chars_of(more);
    push_chars(out, v.as_slice());
}

/// The two texts, one behind the other.
pub fn joined(a: &str, b: &str) -> (r: String)
    ensures
        r@ == a@ + b@,
{
    let mut out: Vec<char> = chars_of(a);
    push_text(&mut out, b);
    text_of(out.as_slice())
}

/// The first `n` characters.
pub fn front(s: &[char], n: usize) -> (r: &[char])
    requires
        n <= s@.len(),
    ensures
        r@ == s@.take(n as int),
{
    let r = vstd::slice::slice_subrange(s, 0, n);
    assert(r@ =~= s@.take(n as int));
    r
}

/// Everything behind the first `n` characters.
pub fn behind(s: &[char], n: usize) -> (r: &[char])
    requires
        n <= s@.len(),
    ensures
        r@ == s@.skip(n as int),
{
    let r = vstd::slice::slice_subrange(s, n, s.len());
    assert(r@ =~= s@.skip(n as int));
    r
}

/// Whether two texts are the same.
pub fn same_chars(a: &[char], b: &[char]) -> (r: bool)
    ensures
        r == (a@ == b@),
{
    if a.len() != b.len() {
        return false;
    }
    let mut i: usize = 0;
    while i < a.len()
        invariant
            i <= a@.len(),
            a@.len() == b@.len(),
            forall|j: int| 0 <= j < i ==> a@[j] == b@[j],
        decreases a@.len() - i,
    {
        if a[i] != b[i] {
            return false;
        }
        i += 1;
    }
    assert(a@ =~= b@);
    true
}

/// Whether two strings are the same.
pub fn same_text(a: &str, b: &str) -> (r: bool)
    ensures
        r == (a@ == b@),
{
    let a = chars_of(a);
    let b = chars_of(b);
    same_chars(a.as_slice(), b.as_slice())
}

// ---------------------------------------------------------------------------
// Searching
// ---------------------------------------------------------------------------

/// Whether `pat` stands in `s` at `i`.
pub open spec fn occurs_at(s: Seq<char>, pat: Seq<char>, i: int) -> bool {
    0 <= i && i + pat.len() <= s.len() && s.subrange(i, i + pat.len()) == pat
}

/// The first place from `i` on where `pat` stands in `s`.
pub open spec fn find_from(s: Seq<char>, pat: Seq<char>, i: int) -> Option<int>
    decreases s.len() - i,
{
    if i + pat.len() > s.len() || i >= s.len() && pat.len() > 0 {
        None
    } else if occurs_at(s, pat, i) {
        Some(i)
    } else if i < s.len() {
        find_from(s, pat, i + 1)
    } else {
        None
    }
}

/// The first place where `pat` stands in `s`.
pub open spec fn find(s: Seq<char>, pat: Seq<char>) -> Option<int> {
    find_from(s, pat, 0)
}

/// Whether `pat` stands somewhere in `s`.
pub open spec fn contains(s: Seq<char>, pat: Seq<char>) -> bool {
    exists|i: int| occurs_at(s, pat, i)
}

/// Whether `s` starts with `pat`.
pub open spec fn starts_with(s: Seq<char>, pat: Seq<char>) -> bool {
    s.len() >= pat.len() && s.take(pat.len() as int) == pat
}

/// Whether `s` ends with `pat`.
pub open spec fn ends_with(s: Seq<char>, pat: Seq<char>) -> bool {
    s.len() >= pat.len() && s.skip(s.len() - pat.len()) == pat
}

/// `find` gives the first of all places, and nothing only where there is none.
pub proof fn find_is_first(s: Seq<char>, pat: Seq<char>, from: int)
    requires
        0 <= from,
    ensures
        match find_from(s, pat, from) {
            Some(i) => from <= i && occurs_at(s, pat, i) && forall|j: int|
                from <= j < i ==> !occurs_at(s, pat, j),
            None => forall|j: int| from <= j ==> !occurs_at(s, pat, j),
        },
    decreases s.len() - from,
{
    if from < s.len() && from + pat.len() <= s.len() && !occurs_at(s, pat, from) {
        find_is_first(s, pat, from + 1);
    }
}

/// A text is found exactly where it is contained.
pub proof fn found_iff_contained(s: Seq<char>, pat: Seq<char>)
    ensures
        find(s, pat) is Some <==> contains(s, pat),
{
    find_is_first(s, pat, 0);
    if find(s, pat) is Some {
        assert(occurs_at(s, pat, find(s, pat)->0));
    }
}

/// Whether `pat` stands in `s` at `i`.
pub fn is_at(s: &[char], pat: &[char], i: usize) -> (r: bool)
    ensures
        r == occurs_at(s@, pat@, i as int),
{
    if i > s.len() || pat.len() > s.len() - i {
        return false;
    }
    let mut k: usize = 0;
    while k < pat.len()
        invariant
            i + pat@.len() <= s@.len(),
            k <= pat@.len(),
            forall|j: int| 0 <= j < k ==> s@[i + j] == pat@[j],
        decreases pat@.len() - k,
    {
        assert(s.len() == s@.len());
        if s[i + k] != pat[k] {
            assert(s@.subrange(i as int, i + pat@.len())[k as int] != pat@[k as int]);
            return false;
        }
        k += 1;
    }
    assert(s@.subrange(i as int, i + pat@.len()) =~= pat@);
    true
}

/// The first place where `pat` stands in `s`.
pub fn find_chars(s: &[char], pat: &[char]) -> (r: Option<usize>)
    ensures
        match r {
            Some(i) => find(s@, pat@) == Some(i as int) && i + pat@.len() <= s@.len(),
            None => find(s@, pat@) is None,
        },
{
    let mut i: usize = 0;
    while i <= s.len()
        invariant
            i <= s@.len() + 1,
            i <= s@.len() ==> find(s@, pat@) == find_from(s@, pat@, i as int),
            i > s@.len() ==> find(s@, pat@) is None,
        decreases s@.len() + 1 - i,
    {
        if is_at(s, pat, i) {
            return Some(i);
        }
        if i == s.len() {
            return None;
        }
        i += 1;
    }
    None
}

/// The first place where the text `pat` stands in `s`.
pub fn find_text(s: &[char], pat: &str) -> (r: Option<usize>)
    ensures
        match r {
            Some(i) => find(s@, pat@) == Some(i as int) && i + pat@.len() <= s@.len(),
            None => find(s@, pat@) is None,
        },
{
    let p = chars_of(pat);
    find_chars(s, p.as_slice())
}

/// Whether `s` starts with the text `pat`.
pub fn has_prefix(s: &[char], pat: &str) -> (r: bool)
    ensures
        r == starts_with(s@, pat@),
{
    let p = chars_of(pat);
    proof {
        if s@.len() >= p@.len() {
            assert(s@.subrange(0, p@.len() as int) =~= s@.take(p@.len() as int));
        }
    }
    is_at(s, p.as_slice(), 0)
}

/// Whether `s` ends with the text `pat`.
pub fn has_suffix(s: &[char], pat: &str) -> (r: bool)
    ensures
        r == ends_with(s@, pat@),
{
    let p = chars_of(pat);
    if s.len() < p.len() {
        return false;
    }
    proof {
        assert(s@.subrange(s@.len() - p@.len(), s@.len() as int) =~= s@.skip(
            s@.len() - p@.len(),
        ));
    }
    is_at(s, p.as_slice(), s.len() - p.len())
}

/// Whether the text `pat` stands somewhere in `s`.
pub fn has_text(s: &[char], pat: &str) -> (r: bool)
    ensures
        r == contains(s@, pat@),
{
    proof {
        found_iff_contained(s@, pat@);
    }
    find_text(s, pat).is_some()
}

/// The first place from `i` on whose character is `c`.
pub open spec fn find_char(s: Seq<char>, c: char) -> Option<int> {
    find(s, seq![c])
}

/// The first place of the character `c`.
pub fn find_one(s: &[char], c: char) -> (r: Option<usize>)
    ensures
        match r {
            Some(i) => find_char(s@, c) == Some(i as int) && i < s@.len() && s@[i as int] == c,
            None => find_char(s@, c) is None,
        },
{
    let p: [char; 1] = [c];
    assert(p@ =~= seq![c]);
    proof {
        find_is_first(s@, seq![c], 0);
    }
    let r = find_chars(s, p.as_slice());
    proof {
        match r {
            Some(i) => {
                assert(s@.subrange(i as int, i + 1)[0] == seq![c][0]);
            },
            None => {},
        }
    }
    r
}

/// The last place of the character `c`.
pub open spec fn rfind_char(s: Seq<char>, c: char) -> Option<int>
    decreases s.len(),
{
    if s.len() == 0 {
        None
    } else if s.last() == c {
        Some(s.len() - 1)
    } else {
        rfind_char(s.drop_last(), c)
    }
}

/// The last place of the character `c`.
pub fn rfind_one(s: &[char], c: char) -> (r: Option<usize>)
    ensures
        match r {
            Some(i) => rfind_char(s@, c) == Some(i as int) && i < s@.len() && s@[i as int] == c,
            None => rfind_char(s@, c) is None,
        },
{
    let mut n: usize = s.len();
    assert(s@.take(n as int) =~= s@);
    while n > 0
        invariant
            n <= s@.len(),
            rfind_char(s@, c) == rfind_char(s@.take(n as int), c),
        decreases n,
    {
        assert(s@.take(n as int).drop_last() =~= s@.take(n - 1));
        if s[n - 1] == c {
            return Some(n - 1);
        }
        n -= 1;
    }
    None
}

// ---------------------------------------------------------------------------
// Replacing
// ---------------------------------------------------------------------------

/// `s` with every place of `pat`, from the left and without overlap, replaced.
pub open spec fn replace_all(s: Seq<char>, pat: Seq<char>, with: Seq<char>) -> Seq<char>
    decreases s.len(),
{
    match find(s, pat) {
        None => s,
        Some(i) => if pat.len() > 0 && 0 <= i && i + pat.len() <= s.len() {
            s.take(i) + with + replace_all(s.skip(i + pat.len()), pat, with)
        } else {
            s
        },
    }
}

/// `s` with the first place of `pat` replaced.
pub open spec fn replace_first(s: Seq<char>, pat: Seq<char>, with: Seq<char>) -> Seq<char> {
    match find(s, pat) {
        None => s,
        Some(i) => s.take(i) + with + s.skip(i + pat.len()),
    }
}

/// Replaces every place of `pat`.
pub fn replace(s: &[char], pat: &str, with: &[char]) -> (r: Vec<char>)
    requires
        pat@.len() > 0,
    ensures
        r@ == replace_all(s@, pat@, with@),
{
    let p = chars_of(pat);
    let mut out: Vec<char> = Vec::new();
    let mut rest: &[char] = s;
    assert(out@ + replace_all(s@, pat@, with@) =~= replace_all(s@, pat@, with@));
    loop
        invariant
            p@ == pat@,
            pat@.len() > 0,
            out@ + replace_all(rest@, pat@, with@) == replace_all(s@, pat@, with@),
        decreases rest@.len(),
    {
        match find_chars(rest, p.as_slice()) {
            None => {
                push_chars(&mut out, rest);
                return out;
            },
            Some(i) => {
                let ghost before = out@;
                proof {
                    find_is_first(rest@, pat@, 0);
                    assert(rest.len() == rest@.len());
                }
                push_chars(&mut out, front(rest, i));
                push_chars(&mut out, with);
                let next = behind(rest, i + p.len());
                assert(before + (rest@.take(i as int) + with@ + replace_all(next@, pat@, with@))
                    =~= out@ + replace_all(next@, pat@, with@));
                rest = next;
            },
        }
    }
}

/// Replaces the first place of `pat`.
pub fn replace_once(s: &[char], pat: &str, with: &str) -> (r: Vec<char>)
    ensures
        r@ == replace_first(s@, pat@, with@),
{
    let p = chars_of(pat);
    let mut out: Vec<char> = Vec::new();
    match find_chars(s, p.as_slice()) {
        None => {
            push_chars(&mut out, s);
            assert(out@ =~= s@);
        },
        Some(i) => {
            proof {
                find_is_first(s@, pat@, 0);
                assert(s.len() == s@.len());
            }
            push_chars(&mut out, front(s, i));
            push_text(&mut out, with);
            push_chars(&mut out, behind(s, i + p.len()));
            assert(out@ =~= replace_first(s@, pat@, with@));
        },
    }
    out
}

// ---------------------------------------------------------------------------
// White space and case
// ---------------------------------------------------------------------------

/// Whether a character has the Unicode property White_Space.
pub open spec fn is_white(c: char) -> bool {
    let n = c as int;
    ||| 0x9 <= n <= 0xd
    ||| n == 0x20
    ||| n == 0x85
    ||| n == 0xa0
    ||| n == 0x1680
    ||| 0x2000 <= n <= 0x200a
    ||| n == 0x2028
    ||| n == 0x2029
    ||| n == 0x202f
    ||| n == 0x205f
    ||| n == 0x3000
}

/// Whether a character has the Unicode property White_Space.
pub fn is_white_space(c: char) -> (r: bool)
    ensures
        r == is_white(c),
{
    let n: u32 = c as u32;
    (0x9 <= n && n <= 0xd) || n == 0x20 || n == 0x85 || n == 0xa0 || n == 0x1680 || (0x2000 <= n
        && n <= 0x200a) || n == 0x2028 || n == 0x2029 || n == 0x202f || n == 0x205f || n == 0x3000
}

/// `s` without white space at its start.
pub open spec fn trimmed_start(s: Seq<char>) -> Seq<char>
    decreases s.len(),
{
    if s.len() > 0 && is_white(s[0]) {
        trimmed_start(s.drop_first())
    } else {
        s
    }
}

/// `s` without white space at its end.
pub open spec fn trimmed_end(s: Seq<char>) -> Seq<char>
    decreases s.len(),
{
    if s.len() > 0 && is_white(s.last()) {
        trimmed_end(s.drop_last())
    } else {
        s
    }
}

/// `s` without white space at either end.
pub open spec fn trimmed(s: Seq<char>) -> Seq<char> {
    trimmed_end(trimmed_start(s))
}

/// Cuts white space off both ends.
pub fn trim(s: &[char]) -> (r: &[char])
    ensures
        r@ == trimmed(s@),
        r@.len() <= s@.len(),
{
    let mut cur = s;
    while cur.len() > 0 && is_white_space(cur[0])
        invariant
            trimmed_start(cur@) == trimmed_start(s@),
            cur@.len() <= s@.len(),
        decreases cur@.len(),
    {
        assert(cur@.skip(1) =~= cur@.drop_first());
        cur = behind(cur, 1);
    }
    let ghost started = cur@;
    while cur.len() > 0 && is_white_space(cur[cur.len() - 1])
        invariant
            trimmed_end(cur@) == trimmed_end(started),
            cur@.len() <= s@.len(),
        decreases cur@.len(),
    {
        assert(cur@.take(cur@.len() - 1) =~= cur@.drop_last());
        cur = front(cur, cur.len() - 1);
    }
    cur
}

/// The ASCII lower-case form of a character.
pub open spec fn lower_char(c: char) -> char {
    if 'A' <= c && c <= 'Z' {
        (c as u8 + 32) as char
    } else {
        c
    }
}

/// The ASCII lower-case form of a text.
pub open spec fn lower(s: Seq<char>) -> Seq<char> {
    s.map_values(|c: char| lower_char(c))
}

/// The ASCII lower-case form of a character.
pub fn to_lower_char(c: char) -> (r: char)
    ensures
        r == lower_char(c),
{
    if 'A' <= c && c <= 'Z' {
        (c as u8 + 32) as char
    } else {
        c
    }
}

/// The ASCII lower-case form of a text.
pub fn to_lower(s: &[char]) -> (r: Vec<char>)
    ensures
        r@ == lower(s@),
{
    let mut out: Vec<char> = Vec::new();
    let mut i: usize = 0;
    while i < s.len()
        invariant
            i <= s@.len(),
            out@.len() == i,
            forall|j: int| 0 <= j < i ==> out@[j] == lower_char(s@[j]),
        decreases s@.len() - i,
    {
        out.push(to_lower_char(s[i]));
        i += 1;
    }
    assert(out@ =~= lower(s@));
    out
}

// ---------------------------------------------------------------------------
// Numbers
// ---------------------------------------------------------------------------

/// Whether a character is an ASCII digit.
pub open spec fn is_digit(c: char) -> bool {
    '0' <= c && c <= '9'
}

/// Whether a text is made of ASCII digits.
pub open spec fn all_digits(s: Seq<char>) -> bool {
    forall|i: int| 0 <= i < s.len() ==> is_digit(#[trigger] s[i])
}

/// The number that a text of digits writes in base ten.
pub open spec fn dec_value(s: Seq<char>) -> nat
    decreases s.len(),
{
    if s.len() == 0 {
        0
    } else {
        dec_value(s.drop_last()) * 10 + (s.last() as nat - '0' as nat) as nat
    }
}

/// The digits of a text that writes an unsigned number, without its plus sign.
pub open spec fn unsigned_digits(s: Seq<char>) -> Seq<char> {
    if s.len() > 0 && s[0] == '+' {
        s.drop_first()
    } else {
        s
    }
}

/// The 64-bit number that a text writes: digits, at least one, with an optional
/// plus sign, and no more than fits.
pub open spec fn u64_value(s: Seq<char>) -> Option<u64> {
    let d = unsigned_digits(s);
    if d.len() == 0 || !all_digits(d) || dec_value(d) > u64::MAX {
        None
    } else {
        Some(dec_value(d) as u64)
    }
}

/// The digits of `n` in base ten, without leading zeros.
pub open spec fn decimal(n: nat) -> Seq<char>
    decreases n,
{
    if n < 10 {
        seq![('0' as nat + n) as char]
    } else {
        decimal(n / 10).push(('0' as nat + n % 10) as char)
    }
}

proof fn dec_value_prefix(s: Seq<char>, i: int)
    requires
        0 <= i <= s.len(),
        all_digits(s),
    ensures
        dec_value(s.take(i)) <= dec_value(s),
        i < s.len() ==> dec_value(s.take(i + 1)) == dec_value(s.take(i)) * 10 + (s[i] as nat
            - '0' as nat),
    decreases s.len() - i,
{
    if i == s.len() {
        assert(s.take(i) =~= s);
    } else {
        assert(s.take(i + 1).drop_last() =~= s.take(i));
        dec_value_prefix(s, i + 1);
    }
}

/// Reads a 64-bit number.
pub fn parse_u64(s: &[char]) -> (r: Option<u64>)
    ensures
        r == u64_value(s@),
{
    let d = if s.len() > 0 && s[0] == '+' {
        behind(s, 1)
    } else {
        s
    };
    assert(d@ =~= unsigned_digits(s@));
    if d.len() == 0 {
        return None;
    }
    let mut i: usize = 0;
    while i < d.len()
        invariant
            i <= d@.len(),
            d@ == unsigned_digits(s@),
            forall|j: int| 0 <= j < i ==> is_digit(#[trigger] d@[j]),
        decreases d@.len() - i,
    {
        if d[i] < '0' || '9' < d[i] {
            assert(!is_digit(d@[i as int]));
            return None;
        }
        i += 1;
    }
    let mut n: u64 = 0;
    let mut k: usize = 0;
    assert(d@.take(0) =~= Seq::empty());
    while k < d.len()
        invariant
            k <= d@.len(),
            d@.len() > 0,
            d@ == unsigned_digits(s@),
            all_digits(d@),
            n == dec_value(d@.take(k as int)),
        decreases d@.len() - k,
    {
        proof {
            dec_value_prefix(d@, k as int);
            dec_value_prefix(d@, k + 1);
            assert(is_digit(d@[k as int]));
        }
        let digit: u64 = d[k] as u64 - '0' as u64;
        if n > (u64::MAX - digit) / 10 {
            return None;
        }
        n = n * 10 + digit;
        k += 1;
    }
    assert(d@.take(k as int) =~= d@);
    Some(n)
}

/// Appends the decimal digits of `n`.
pub fn push_number(out: &mut Vec<char>, n: u64)
    ensures
        final(out)@ == old(out)@ + decimal(n as nat),
    decreases n,
{
    if n >= 10 {
        push_number(out, n / 10);
    }
    let digit: u8 = 48 + (n % 10) as u8;
    out.push(digit as char);
    assert(out@ =~= old(out)@ + decimal(n as nat));
}

/// The decimal digits of a number read back as that number.
pub proof fn decimal_reads_back(n: nat)
    ensures
        decimal(n).len() > 0,
        all_digits(decimal(n)),
        dec_value(decimal(n)) == n,
        n <= u64::MAX ==> u64_value(decimal(n)) == Some(n as u64),
    decreases n,
{
    if n < 10 {
        let c = ('0' as nat + n) as char;
        assert(seq![c].drop_last() =~= Seq::empty());
        assert(dec_value(Seq::<char>::empty()) == 0);
    } else {
        decimal_reads_back(n / 10);
        let c = ('0' as nat + n % 10) as char;
        assert(decimal(n).drop_last() =~= decimal(n / 10));
        assert(is_digit(c));
        assert forall|i: int| 0 <= i < decimal(n).len() implies is_digit(
            #[trigger] decimal(n)[i],
        ) by {
            if i < decimal(n).len() - 1 {
                assert(decimal(n)[i] == decimal(n / 10)[i]);
            }
        }
    }
    assert(is_digit(decimal(n)[0]));
}

// ---------------------------------------------------------------------------
// Byte offsets
// ---------------------------------------------------------------------------

/// How many bytes a character takes in UTF-8.
pub open spec fn utf8_len(c: char) -> int {
    let n = c as int;
    if n < 0x80 {
        1
    } else if n < 0x800 {
        2
    } else if n < 0x1_0000 {
        3
    } else {
        4
    }
}

/// How many bytes a text takes in UTF-8.
pub open spec fn byte_len(s: Seq<char>) -> int
    decreases s.len(),
{
    if s.len() == 0 {
        0
    } else {
        byte_len(s.drop_last()) + utf8_len(s.last())
    }
}

/// Whether the byte offset `offset` falls between two characters of `s`, with `i`
/// characters before it.
pub open spec fn is_offset(s: Seq<char>, offset: int, i: int) -> bool {
    0 <= i <= s.len() && byte_len(s.take(i)) == offset
}

proof fn byte_len_grows(s: Seq<char>, i: int, j: int)
    requires
        0 <= i <= j <= s.len(),
    ensures
        byte_len(s.take(i)) + (j - i) <= byte_len(s.take(j)),
    decreases j - i,
{
    if i < j {
        byte_len_grows(s, i, j - 1);
        assert(s.take(j).drop_last() =~= s.take(j - 1));
    }
}

/// At most one place has a given byte offset.
pub proof fn offset_is_unique(s: Seq<char>, offset: int, i: int, j: int)
    requires
        is_offset(s, offset, i),
        is_offset(s, offset, j),
    ensures
        i == j,
{
    if i < j {
        byte_len_grows(s, i, j);
    } else {
        byte_len_grows(s, j, i);
    }
}

/// The number of characters before a byte offset, if it falls between two.
pub open spec fn index_at(s: Seq<char>, offset: int) -> Option<int> {
    if exists|i: int| is_offset(s, offset, i) {
        Some(choose|i: int| is_offset(s, offset, i))
    } else {
        None
    }
}

/// How many bytes a character takes in UTF-8.
pub fn utf8_size(c: char) -> (n: u64)
    ensures
        n == utf8_len(c),
{
    let n: u32 = c as u32;
    if n < 0x80 {
        1
    } else if n < 0x800 {
        2
    } else if n < 0x1_0000 {
        3
    } else {
        4
    }
}

/// The number of characters before a byte offset, if it falls between two.
pub fn char_index(s: &[char], offset: u64) -> (r: Option<usize>)
    ensures
        match r {
            Some(i) => index_at(s@, offset as int) == Some(i as int) && i <= s@.len(),
            None => index_at(s@, offset as int) is None,
        },
{
    let mut i: usize = 0;
    let mut at: u64 = 0;
    assert(s@.take(0) =~= Seq::empty());
    loop
        invariant
            i <= s@.len(),
            at == byte_len(s@.take(i as int)),
            at <= offset,
            forall|j: int| 0 <= j < i ==> !is_offset(s@, offset as int, j),
        decreases s@.len() - i,
    {
        if at == offset {
            proof {
                assert(is_offset(s@, offset as int, i as int));
                let k = index_at(s@, offset as int)->0;
                offset_is_unique(s@, offset as int, i as int, k);
            }
            return Some(i);
        }
        if i == s.len() {
            return None;
        }
        let step: u64 = utf8_size(s[i]);
        assert(s@.take(i + 1).drop_last() =~= s@.take(i as int));
        if step > offset - at {
            proof {
                assert forall|j: int| !is_offset(s@, offset as int, j) by {
                    if is_offset(s@, offset as int, j) && j > i {
                        byte_len_grows(s@, i + 1, j);
                    }
                }
            }
            return None;
        }
        at += step;
        i += 1;
    }
}

} // verus!

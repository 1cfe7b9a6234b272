use vstd::prelude::*;

verus! {

broadcast use vstd::string::group_string_axioms;

/// The characters of `s`.
pub fn chars_of(s: &str) -> (r: Vec<char>)
    ensures
        r@ == s@,
{
    let mut out: Vec<char> = Vec::new();
    for c in it: s.chars()
        invariant
            it.seq() == s@,
            out@ == s@.take(it.index() as int),
    {
        out.push(c);
        proof {
            assert(out@ =~= s@.take(it.index() + 1));
        }
    }
    out
}

} // verus!

verus! {

/// Characters with the Unicode `White_Space` property, which `char::is_whitespace`
/// and `str::trim` go by.
pub open spec fn is_white_space(c: char) -> bool {
    let u = c as u32;
    ||| 9 <= u <= 13
    ||| u == 32
    ||| u == 0x85
    ||| u == 0xA0
    ||| u == 0x1680
    ||| 0x2000 <= u <= 0x200A
    ||| u == 0x2028
    ||| u == 0x2029
    ||| u == 0x202F
    ||| u == 0x205F
    ||| u == 0x3000
}

pub fn white_space(c: char) -> (r: bool)
    ensures
        r == is_white_space(c),
{
    let u = c as u32;
    (9 <= u && u <= 13) || u == 32 || u == 0x85 || u == 0xA0 || u == 0x1680 || (0x2000 <= u && u
        <= 0x200A) || u == 0x2028 || u == 0x2029 || u == 0x202F || u == 0x205F || u == 0x3000
}

/// `s` without its leading white space.
pub open spec fn trim_start_seq(s: Seq<char>) -> Seq<char>
    decreases s.len(),
{
    if s.len() > 0 && is_white_space(s[0]) {
        trim_start_seq(s.drop_first())
    } else {
        s
    }
}

/// `s` without its trailing white space.
pub open spec fn trim_end_seq(s: Seq<char>) -> Seq<char>
    decreases s.len(),
{
    if s.len() > 0 && is_white_space(s.last()) {
        trim_end_seq(s.drop_last())
    } else {
        s
    }
}

/// `s` without leading and trailing white space, as `str::trim` gives it.
pub open spec fn trim_seq(s: Seq<char>) -> Seq<char> {
    trim_end_seq(trim_start_seq(s))
}

/// Whether `s` holds nothing but white space.
pub open spec fn is_blank(s: Seq<char>) -> bool {
    trim_seq(s).len() == 0
}

/// The bounds `(start, end)` such that `chars[start..end]` is `chars` trimmed.
pub fn trim_bounds(chars: &Vec<char>) -> (r: (usize, usize))
    ensures
        r.0 <= r.1 <= chars.len(),
        chars@.subrange(r.0 as int, r.1 as int) == trim_seq(chars@),
{
    let n = chars.len();
    let mut start: usize = 0;
    assert(chars@.skip(0) =~= chars@);
    while start < n && white_space(chars[start])
        invariant
            n == chars.len(),
            start <= n,
            trim_start_seq(chars@) == trim_start_seq(chars@.skip(start as int)),
        decreases n - start,
    {
        proof {
            assert(chars@.skip(start as int).drop_first() =~= chars@.skip(start + 1));
        }
        start = start + 1;
    }
    let ghost rest = chars@.skip(start as int);
    assert(trim_start_seq(chars@) == rest);
    let mut end: usize = n;
    while end > start && white_space(chars[end - 1])
        invariant
            n == chars.len(),
            start <= end <= n,
            rest == chars@.skip(start as int),
            trim_end_seq(rest) == trim_end_seq(chars@.subrange(start as int, end as int)),
        decreases end,
    {
        proof {
            assert(chars@.subrange(start as int, end as int).drop_last() =~= chars@.subrange(start as int, end - 1));
        }
        end = end - 1;
    }
    proof {
        assert(rest =~= chars@.subrange(start as int, n as int));
        if end == start {
            assert(chars@.subrange(start as int, end as int).len() == 0);
        }
    }
    (start, end)
}

/// Appends `c` to `s`, as `String::push` does.
#[verifier::external_body]
fn push_char(s: &mut String, c: char)
    ensures
        final(s)@ == old(s)@.push(c),
{
    s.push(c);
}

/// The string made of `chars`.
pub fn string_from_chars(chars: &[char]) -> (r: String)
    ensures
        r@ == chars@,
{
    let mut out = String::new();
    for i in 0..chars.len()
        invariant
            out@ == chars@.take(i as int),
    {
        push_char(&mut out, chars[i]);
        proof {
            assert(chars@.take(i + 1) =~= chars@.take(i as int).push(chars@[i as int]));
        }
    }
    proof {
        assert(chars@.take(chars@.len() as int) =~= chars@);
    }
    out
}

/// `s` with leading and trailing white space removed.
pub fn trim(s: &str) -> (r: String)
    ensures
        r@ == trim_seq(s@),
{
    let chars = chars_of(s);
    let (start, end) = trim_bounds(&chars);
    let mut part: Vec<char> = Vec::new();
    for i in start..end
        invariant
            start <= end <= chars.len(),
            part@ == chars@.subrange(start as int, i as int),
    {
        part.push(chars[i]);
        proof {
            assert(part@ =~= chars@.subrange(start as int, i + 1));
        }
    }
    string_from_chars(part.as_slice())
}

/// Whether `s` is empty once trimmed.
pub fn blank(s: &str) -> (r: bool)
    ensures
        r == is_blank(s@),
{
    let chars = chars_of(s);
    let (start, end) = trim_bounds(&chars);
    start == end
}

} // verus!

verus! {

/// The character of decimal digit `d`.
pub open spec fn digit_char(d: nat) -> char {
    (48 + d) as char
}

/// The decimal rendering of `n`, as `Display` writes an unsigned integer.
pub open spec fn decimal(n: nat) -> Seq<char>
    decreases n,
{
    if n < 10 {
        seq![digit_char(n)]
    } else {
        decimal(n / 10).push(digit_char(n % 10))
    }
}

/// The decimal rendering of `n`, as `Display` writes a signed integer.
pub open spec fn signed_decimal(n: int) -> Seq<char> {
    if n < 0 {
        seq!['-'] + decimal((-n) as nat)
    } else {
        decimal(n as nat)
    }
}

fn digit(d: u64) -> (r: char)
    requires
        d < 10,
    ensures
        r == digit_char(d as nat),
{
    let b: u8 = 48u8 + (d as u8);
    b as char
}

/// The decimal digits of `n`, most significant first.
fn decimal_chars(n: u64) -> (r: Vec<char>)
    ensures
        r@ == decimal(n as nat),
{
    let mut m = n;
    let mut reversed: Vec<char> = Vec::new();
    while m >= 10
        invariant
            decimal(n as nat) == decimal(m as nat) + reversed@.reverse(),
        decreases m,
    {
        let d = digit(m % 10);
        proof {
            assert(reversed@.push(d).reverse() =~= seq![d] + reversed@.reverse());
            assert(decimal(m as nat) == decimal((m / 10) as nat).push(d));
            assert(decimal((m / 10) as nat).push(d) + reversed@.reverse() =~= decimal((m / 10) as nat)
                + reversed@.push(d).reverse());
        }
        reversed.push(d);
        m = m / 10;
    }
    let d = digit(m);
    proof {
        assert(reversed@.push(d).reverse() =~= seq![d] + reversed@.reverse());
    }
    reversed.push(d);
    let mut out: Vec<char> = Vec::new();
    let len = reversed.len();
    let mut i: usize = len;
    while i > 0
        invariant
            i <= len == reversed.len(),
            out@ == reversed@.subrange(i as int, len as int).reverse(),
        decreases i,
    {
        i = i - 1;
        proof {
            assert(reversed@.subrange(i as int, len as int).reverse() =~= reversed@.subrange(i + 1, len as int).reverse().push(reversed@[i as int]));
        }
        out.push(reversed[i]);
    }
    proof {
        assert(reversed@.subrange(0, len as int) =~= reversed@);
    }
    out
}

/// `n` written in decimal.
pub fn u64_to_decimal(n: u64) -> (r: String)
    ensures
        r@ == decimal(n as nat),
{
    let chars = decimal_chars(n);
    string_from_chars(chars.as_slice())
}

/// `n` written in decimal.
pub fn usize_to_decimal(n: usize) -> (r: String)
    ensures
        r@ == decimal(n as nat),
{
    u64_to_decimal(n as u64)
}

/// `n` written in decimal, with a leading `-` when negative.
pub fn i64_to_decimal(n: i64) -> (r: String)
    ensures
        r@ == signed_decimal(n as int),
{
    if n < 0 {
        let magnitude: u64 = if n == i64::MIN { 0x8000_0000_0000_0000u64 } else { (-n) as u64 };
        let mut chars: Vec<char> = Vec::new();
        chars.push('-');
        let digits = decimal_chars(magnitude);
        let mut i: usize = 0;
        while i < digits.len()
            invariant
                i <= digits.len(),
                chars@ == seq!['-'] + digits@.subrange(0, i as int),
            decreases digits.len() - i,
        {
            chars.push(digits[i]);
            proof {
                assert(chars@ =~= seq!['-'] + digits@.subrange(0, i + 1));
            }
            i = i + 1;
        }
        proof {
            assert(digits@.subrange(0, digits.len() as int) =~= digits@);
        }
        string_from_chars(chars.as_slice())
    } else {
        u64_to_decimal(n as u64)
    }
}

/// Byte-wise order of strings, which for UTF-8 is the order of their
/// characters' code points, compared left to right; a proper prefix comes first.
pub open spec fn seq_lt(a: Seq<char>, b: Seq<char>) -> bool
    decreases a.len(),
{
    if a.len() == 0 {
        b.len() > 0
    } else if b.len() == 0 {
        false
    } else if a[0] != b[0] {
        a[0] < b[0]
    } else {
        seq_lt(a.drop_first(), b.drop_first())
    }
}

pub proof fn lemma_seq_lt_irreflexive(a: Seq<char>)
    ensures
        !seq_lt(a, a),
    decreases a.len(),
{
    if a.len() > 0 {
        lemma_seq_lt_irreflexive(a.drop_first());
    }
}

pub proof fn lemma_seq_lt_total(a: Seq<char>, b: Seq<char>)
    ensures
        a != b ==> seq_lt(a, b) || seq_lt(b, a),
        !(seq_lt(a, b) && seq_lt(b, a)),
    decreases a.len(),
{
    if a.len() > 0 && b.len() > 0 {
        lemma_seq_lt_total(a.drop_first(), b.drop_first());
        if a[0] == b[0] && a != b {
            if a.drop_first() == b.drop_first() {
                assert(a =~= seq![a[0]] + a.drop_first());
                assert(b =~= seq![b[0]] + b.drop_first());
            }
        }

    } else if a.len() == 0 && b.len() == 0 {
        assert(a =~= b);
    }
}

pub proof fn lemma_seq_lt_transitive(a: Seq<char>, b: Seq<char>, c: Seq<char>)
    requires
        seq_lt(a, b),
        seq_lt(b, c),
    ensures
        seq_lt(a, c),
    decreases a.len(),
{
    if a.len() > 0 && b.len() > 0 && c.len() > 0 {
        if a[0] == b[0] && b[0] == c[0] {
            lemma_seq_lt_transitive(a.drop_first(), b.drop_first(), c.drop_first());
        }
    }
}

/// Whether `a` comes before `b` in the order of `str`.
pub fn chars_lt(a: &Vec<char>, b: &Vec<char>) -> (r: bool)
    ensures
        r == seq_lt(a@, b@),
{
    let mut k: usize = 0;
    assert(a@.skip(0) =~= a@);
    assert(b@.skip(0) =~= b@);
    loop
        invariant
            k <= a.len(),
            k <= b.len(),
            seq_lt(a@, b@) == seq_lt(a@.skip(k as int), b@.skip(k as int)),
        decreases a.len() - k,
    {
        if k == a.len() {
            return k < b.len();
        }
        if k == b.len() {
            return false;
        }
        if a[k] != b[k] {
            return a[k] < b[k];
        }
        proof {
            assert(a@.skip(k as int).drop_first() =~= a@.skip(k + 1));
            assert(b@.skip(k as int).drop_first() =~= b@.skip(k + 1));
        }
        k = k + 1;
    }
}

/// Whether `a` and `b` hold the same characters.
pub fn str_eq(a: &str, b: &str) -> (r: bool)
    ensures
        r == (a@ == b@),
{
    let ca = chars_of(a);
    let cb = chars_of(b);
    if ca.len() != cb.len() {
        return false;
    }
    let mut i: usize = 0;
    while i < ca.len()
        invariant
            ca.len() == cb.len(),
            i <= ca.len(),
            ca@ == a@,
            cb@ == b@,
            ca@.take(i as int) == cb@.take(i as int),
        decreases ca.len() - i,
    {
        if ca[i] != cb[i] {
            assert(ca@[i as int] != cb@[i as int]);
            return false;
        }
        proof {
            assert(ca@.take(i + 1) =~= ca@.take(i as int).push(ca@[i as int]));
            assert(cb@.take(i + 1) =~= cb@.take(i as int).push(cb@[i as int]));
        }
        i = i + 1;
    }
    proof {
        assert(ca@.take(i as int) =~= ca@);
        assert(cb@.take(i as int) =~= cb@);
    }
    true
}

} // verus!

verus! {

proof fn lemma_trim_start_no_lead(s: Seq<char>)
    requires
        s.len() == 0 || !is_white_space(s[0]),
    ensures
        trim_start_seq(s) == s,
{
}

proof fn lemma_trim_end_keeps_lead(s: Seq<char>)
    requires
        s.len() == 0 || !is_white_space(s[0]),
    ensures
        trim_end_seq(s).len() == 0 || !is_white_space(trim_end_seq(s)[0]),
        trim_end_seq(s).len() == 0 || !is_white_space(trim_end_seq(s).last()),
    decreases s.len(),
{
    if s.len() > 0 && is_white_space(s.last()) {
        lemma_trim_end_keeps_lead(s.drop_last());
    }
}

proof fn lemma_trim_start_lead(s: Seq<char>)
    ensures
        trim_start_seq(s).len() == 0 || !is_white_space(trim_start_seq(s)[0]),
    decreases s.len(),
{
    if s.len() > 0 && is_white_space(s[0]) {
        lemma_trim_start_lead(s.drop_first());
    }
}

/// Trimming a trimmed string changes nothing.
pub proof fn lemma_trim_idempotent(s: Seq<char>)
    ensures
        trim_seq(trim_seq(s)) == trim_seq(s),
{
    let t = trim_seq(s);
    lemma_trim_start_lead(s);
    lemma_trim_end_keeps_lead(trim_start_seq(s));
    lemma_trim_start_no_lead(t);
}

} // verus!

verus! {

/// The pieces of `s` between occurrences of `sep`, as `str::split` gives them:
/// there is always one piece more than there are separators.
pub open spec fn split_on(s: Seq<char>, sep: char) -> Seq<Seq<char>>
    decreases s.len(),
{
    if s.len() == 0 {
        seq![Seq::empty()]
    } else {
        let parts = split_on(s.drop_last(), sep);
        if s.last() == sep {
            parts.push(Seq::empty())
        } else {
            parts.update(parts.len() - 1, parts.last().push(s.last()))
        }
    }
}

pub proof fn lemma_split_on_nonempty(s: Seq<char>, sep: char)
    ensures
        split_on(s, sep).len() >= 1,
        split_on(s, sep).len() <= s.len() + 1,
    decreases s.len(),
{
    if s.len() > 0 {
        lemma_split_on_nonempty(s.drop_last(), sep);
    }
}

/// `s` cut at every `sep`.
pub fn split_chars(s: &Vec<char>, sep: char) -> (r: Vec<Vec<char>>)
    ensures
        r.len() == split_on(s@, sep).len(),
        forall|i: int| 0 <= i < r.len() ==> (#[trigger] r[i])@ == split_on(s@, sep)[i],
{
    let mut parts: Vec<Vec<char>> = Vec::new();
    let mut current: Vec<char> = Vec::new();
    let n = s.len();
    assert(s@.take(0) =~= Seq::<char>::empty());
    for i in 0..n
        invariant
            n == s.len(),
            parts.len() + 1 == split_on(s@.take(i as int), sep).len(),
            forall|j: int| 0 <= j < parts.len() ==> (#[trigger] parts[j])@ == split_on(s@.take(i as int), sep)[j],
            current@ == split_on(s@.take(i as int), sep).last(),
    {
        let ghost before = split_on(s@.take(i as int), sep);
        proof {
            assert(s@.take(i + 1).drop_last() =~= s@.take(i as int));
            lemma_split_on_nonempty(s@.take(i as int), sep);
        }
        let c = s[i];
        if c == sep {
            let done = current;
            parts.push(done);
            current = Vec::new();
            proof {
                let after = split_on(s@.take(i + 1), sep);
                assert(after == before.push(Seq::empty()));
                assert forall|j: int| 0 <= j < parts.len() implies (#[trigger] parts[j])@ == after[j] by {
                    if j < parts.len() - 1 {
                        assert(after[j] == before[j]);
                    }
                }
            }
        } else {
            current.push(c);
            proof {
                let after = split_on(s@.take(i + 1), sep);
                assert(after == before.update(before.len() - 1, before.last().push(c)));
            }
        }
    }
    parts.push(current);
    proof {
        assert(s@.take(n as int) =~= s@);
    }
    parts
}

/// `chars` without leading and trailing white space.
pub fn trimmed_chars(chars: &Vec<char>) -> (r: Vec<char>)
    ensures
        r@ == trim_seq(chars@),
{
    let (start, end) = trim_bounds(chars);
    let mut part: Vec<char> = Vec::new();
    for i in start..end
        invariant
            start <= end <= chars.len(),
            part@ == chars@.subrange(start as int, i as int),
    {
        part.push(chars[i]);
        proof {
            assert(part@ =~= chars@.subrange(start as int, i + 1));
        }
    }
    part
}

/// Whether `a` and `b` hold the same characters.
pub fn chars_eq(a: &Vec<char>, b: &Vec<char>) -> (r: bool)
    ensures
        r == (a@ == b@),
{
    if a.len() != b.len() {
        return false;
    }
    let mut i: usize = 0;
    while i < a.len()
        invariant
            a.len() == b.len(),
            i <= a.len(),
            a@.take(i as int) == b@.take(i as int),
        decreases a.len() - i,
    {
        if a[i] != b[i] {
            assert(a@[i as int] != b@[i as int]);
            return false;
        }
        proof {
            assert(a@.take(i + 1) =~= a@.take(i as int).push(a@[i as int]));
            assert(b@.take(i + 1) =~= b@.take(i as int).push(b@[i as int]));
        }
        i = i + 1;
    }
    proof {
        assert(a@.take(i as int) =~= a@);
        assert(b@.take(i as int) =~= b@);
    }
    true
}

/// Appends `tail` to `s`.
pub fn push_str(s: &mut String, tail: &str)
    ensures
        final(s)@ == old(s)@ + tail@,
{
    s.append(tail);
}

/// Whether `c` is one of the ASCII digits `0` to `9`.
pub open spec fn is_ascii_digit(c: char) -> bool {
    '0' <= c <= '9'
}

/// The number that the ASCII digits `s` write in decimal.
pub open spec fn digits_value(s: Seq<char>) -> nat
    decreases s.len(),
{
    if s.len() == 0 {
        0
    } else {
        digits_value(s.drop_last()) * 10 + (s.last() as nat - 48) as nat
    }
}

/// `s` without one leading `+`.
pub open spec fn unsigned_digits(s: Seq<char>) -> Seq<char> {
    if s.len() > 0 && s[0] == '+' { s.drop_first() } else { s }
}

/// The number that `s` writes as an unsigned integer, as the `FromStr` of
/// Rust's unsigned integer types reads it before checking the range: an
/// optional `+`, then one or more ASCII digits and nothing else.
pub open spec fn unsigned_value(s: Seq<char>) -> Option<nat> {
    if unsigned_digits(s).len() > 0 && forall|i: int| 0 <= i < unsigned_digits(s).len() ==> is_ascii_digit(#[trigger] unsigned_digits(s)[i]) {
        Some(digits_value(unsigned_digits(s)))
    } else {
        None
    }
}

/// What `str::parse` gives for an unsigned integer type whose largest value is `max`.
pub open spec fn parse_unsigned(s: Seq<char>, max: nat) -> Option<nat> {
    match unsigned_value(s) {
        Some(v) => if v <= max { Some(v) } else { None },
        None => None,
    }
}

/// Reads `s` as an unsigned integer no larger than `max`.
pub fn parse_bounded(s: &Vec<char>, max: u64) -> (r: Option<u64>)
    ensures
        match parse_unsigned(s@, max as nat) {
            Some(v) => r == Some(v as u64),
            None => r is None,
        },
{
    let n = s.len();
    let start: usize = if n > 0 && s[0] == '+' { 1 } else { 0 };
    let ghost body = unsigned_digits(s@);
    assert(body =~= s@.skip(start as int));
    if start == n {
        return None;
    }
    let mut acc: u64 = 0;
    let mut too_large = false;
    let mut i: usize = start;
    assert(body.take(0) =~= Seq::<char>::empty());
    while i < n
        invariant
            start <= i <= n == s.len(),
            start < n,
            body =~= s@.skip(start as int),
            body == unsigned_digits(s@),
            forall|j: int| 0 <= j < i - start ==> is_ascii_digit(#[trigger] body[j]),
            !too_large ==> acc == digits_value(body.take(i - start)) && acc <= max,
            too_large ==> digits_value(body.take(i - start)) > max,
        decreases n - i,
    {
        let c = s[i];
        assert(body[i - start] == c);
        if !('0' <= c && c <= '9') {
            assert(!is_ascii_digit(body[i - start]));
            return None;
        }
        let d = (c as u32 - 48) as u64;
        proof {
            assert(body.take(i - start + 1).drop_last() =~= body.take(i - start));
            assert(body.take(i - start + 1).last() == c);
        }
        if !too_large {
            let next: u128 = (acc as u128) * 10 + (d as u128);
            if next > max as u128 {
                too_large = true;
            } else {
                acc = next as u64;
            }
        } else {
            assert(digits_value(body.take(i - start + 1)) >= digits_value(body.take(i - start)));
        }
        i = i + 1;
    }
    proof {
        assert(body.take(n - start) =~= body);
    }
    if too_large {
        None
    } else {
        Some(acc)
    }
}

} // verus!

//! Text building blocks: decimal numbers, ASCII case and trimming.
use vstd::prelude::*;

verus! {

/// `String::push` appends one character.
pub assume_specification[ String::push ](s: &mut String, c: char)
    ensures
        final(s)@ == old(s)@.push(c),
;

/// The ASCII digits of `n`, without leading zeros.
pub open spec fn digits(n: nat) -> Seq<u8>
    decreases n,
{
    if n < 10 {
        seq![(48 + n) as u8]
    } else {
        digits(n / 10).push((48 + n % 10) as u8)
    }
}

/// The characters of an ASCII byte string.
pub open spec fn ascii(s: Seq<u8>) -> Seq<char> {
    s.map_values(|b: u8| b as char)
}

/// `n` in decimal.
pub open spec fn decimal(n: nat) -> Seq<char> {
    ascii(digits(n))
}

/// Append `n` in decimal to a text.
pub fn push_decimal(out: &mut String, n: u64)
    ensures
        final(out)@ == old(out)@ + decimal(n as nat),
    decreases n,
{
    if n < 10 {
        out.push((48 + n as u8) as char);
        assert(out@ =~= old(out)@ + decimal(n as nat));
    } else {
        push_decimal(out, n / 10);
        out.push((48 + (n % 10) as u8) as char);
        assert(out@ =~= old(out)@ + decimal(n as nat));
    }
}

/// The characters of a text.
pub fn chars_of(s: &str) -> (v: Vec<char>)
    ensures
        v@ == s@,
{
    let mut v: Vec<char> = Vec::new();
    for c in it: s.chars()
        invariant
            v@.len() == it.index(),
            forall|j: int| 0 <= j < v@.len() ==> v@[j] == it.seq()[j],
    {
        v.push(c);
    }
    assert(v@ =~= s@);
    v
}

/// The text with the characters `v[from..to]`.
pub fn text_of(v: &Vec<char>, from: usize, to: usize) -> (s: String)
    requires
        from <= to <= v@.len(),
    ensures
        s@ == v@.subrange(from as int, to as int),
{
    let mut s = String::new();
    let mut i: usize = from;
    assert(v@.subrange(from as int, from as int) =~= Seq::<char>::empty());
    while i < to
        invariant
            from <= i <= to <= v@.len(),
            s@ == v@.subrange(from as int, i as int),
        decreases to - i,
    {
        s.push(v[i]);
        assert(v@.subrange(from as int, i + 1) =~= v@.subrange(from as int, i as int).push(
            v@[i as int],
        ));
        i += 1;
    }
    s
}

/// Whether two texts are equal.
pub fn same_text(a: &str, b: &str) -> (r: bool)
    ensures
        r == (a@ == b@),
{
    let x: Vec<char> = chars_of(a);
    let y: Vec<char> = chars_of(b);
    if x.len() != y.len() {
        return false;
    }
    let mut i: usize = 0;
    while i < x.len()
        invariant
            i <= x@.len(),
            x@.len() == y@.len(),
            x@ == a@,
            y@ == b@,
            forall|j: int| 0 <= j < i ==> x@[j] == y@[j],
        decreases x@.len() - i,
    {
        if x[i] != y[i] {
            return false;
        }
        i += 1;
    }
    assert(x@ =~= y@);
    true
}

/// Unicode white space.
pub open spec fn is_white(c: char) -> bool {
    let n = c as u32;
    9 <= n <= 13 || n == 32 || n == 0x85 || n == 0xa0 || n == 0x1680 || 0x2000 <= n <= 0x200a || n
        == 0x2028 || n == 0x2029 || n == 0x202f || n == 0x205f || n == 0x3000
}

/// Whether the character is Unicode white space.
pub fn white(c: char) -> (r: bool)
    ensures
        r == is_white(c),
{
    let n: u32 = c as u32;
    (9 <= n && n <= 13) || n == 32 || n == 0x85 || n == 0xa0 || n == 0x1680 || (0x2000 <= n && n
        <= 0x200a) || n == 0x2028 || n == 0x2029 || n == 0x202f || n == 0x205f || n == 0x3000
}

/// Without leading white space.
pub open spec fn trimmed_start(s: Seq<char>) -> Seq<char>
    decreases s.len(),
{
    if s.len() > 0 && is_white(s[0]) {
        trimmed_start(s.subrange(1, s.len() as int))
    } else {
        s
    }
}

/// Without trailing white space.
pub open spec fn trimmed_end(s: Seq<char>) -> Seq<char>
    decreases s.len(),
{
    if s.len() > 0 && is_white(s.last()) {
        trimmed_end(s.drop_last())
    } else {
        s
    }
}

/// Without leading and trailing white space.
pub open spec fn trimmed(s: Seq<char>) -> Seq<char> {
    trimmed_end(trimmed_start(s))
}

/// A text without leading and trailing white space.
pub fn trim(s: &str) -> (r: String)
    ensures
        r@ == trimmed(s@),
{
    let v: Vec<char> = chars_of(s);
    let mut a: usize = 0;
    assert(v@.subrange(0, v@.len() as int) =~= v@);
    while a < v.len() && white(v[a])
        invariant
            a <= v@.len(),
            trimmed_start(v@) == trimmed_start(v@.subrange(a as int, v@.len() as int)),
        decreases v@.len() - a,
    {
        let ghost rest = v@.subrange(a as int, v@.len() as int);
        assert(rest.subrange(1, rest.len() as int) =~= v@.subrange(a + 1, v@.len() as int));
        a += 1;
    }
    let ghost body = v@.subrange(a as int, v@.len() as int);
    assert(trimmed_start(v@) == body);
    let mut b: usize = v.len();
    while b > a && white(v[b - 1])
        invariant
            a <= b <= v@.len(),
            body == v@.subrange(a as int, v@.len() as int),
            trimmed_end(body) == trimmed_end(v@.subrange(a as int, b as int)),
        decreases b,
    {
        let ghost rest = v@.subrange(a as int, b as int);
        assert(rest.drop_last() =~= v@.subrange(a as int, b - 1));
        b -= 1;
    }
    assert(trimmed_end(body) == v@.subrange(a as int, b as int));
    text_of(&v, a, b)
}

/// ASCII lower case of a character.
pub open spec fn lower_char(c: char) -> char {
    if 'A' <= c <= 'Z' {
        (c as u8 + 32) as char
    } else {
        c
    }
}

/// A text in ASCII lower case.
pub open spec fn lowered(s: Seq<char>) -> Seq<char> {
    s.map_values(|c: char| lower_char(c))
}

/// A text in ASCII lower case.
pub fn to_lower(s: &str) -> (r: String)
    ensures
        r@ == lowered(s@),
{
    let v: Vec<char> = chars_of(s);
    let mut r = String::new();
    let mut i: usize = 0;
    assert(v@.subrange(0, 0) =~= Seq::<char>::empty());
    assert(lowered(Seq::<char>::empty()) =~= Seq::<char>::empty());
    while i < v.len()
        invariant
            i <= v@.len(),
            r@ == lowered(v@.subrange(0, i as int)),
        decreases v@.len() - i,
    {
        let c: char = v[i];
        if 'A' <= c && c <= 'Z' {
            r.push((c as u8 + 32) as char);
        } else {
            r.push(c);
        }
        assert(r@ =~= lowered(v@.subrange(0, i + 1)));
        i += 1;
    }
    assert(v@.subrange(0, i as int) =~= v@);
    r
}

/// Whether `s` begins with `prefix`.
pub open spec fn has_prefix(s: Seq<char>, prefix: Seq<char>) -> bool {
    prefix.len() <= s.len() && s.subrange(0, prefix.len() as int) == prefix
}

/// Whether `s` begins with `prefix`.
pub fn starts_with(s: &str, prefix: &str) -> (r: bool)
    ensures
        r == has_prefix(s@, prefix@),
{
    let x: Vec<char> = chars_of(s);
    let y: Vec<char> = chars_of(prefix);
    if y.len() > x.len() {
        return false;
    }
    let mut i: usize = 0;
    while i < y.len()
        invariant
            i <= y@.len() <= x@.len(),
            x@ == s@,
            y@ == prefix@,
            forall|j: int| 0 <= j < i ==> x@[j] == y@[j],
        decreases y@.len() - i,
    {
        if x[i] != y[i] {
            assert(s@.subrange(0, prefix@.len() as int)[i as int] == s@[i as int]);
            return false;
        }
        i += 1;
    }
    assert(s@.subrange(0, prefix@.len() as int) =~= prefix@);
    true
}

/// How the Debug format of a text shows it.
pub uninterp spec fn debug_text(s: Seq<char>) -> Seq<char>;

/// `format!` with the Debug format of `str`: the text in quotes, escaped. What the escapes
/// are is left to the name [`debug_text`].
#[verifier::external_body]
pub(crate) fn debug_str(s: &str) -> (r: String)
    ensures
        r@ == debug_text(s@),
{
    format!("{s:?}")
}

/// Decimal text of a number that may be negative.
pub open spec fn signed(n: int) -> Seq<char> {
    if n < 0 {
        "-"@ + decimal((-n) as nat)
    } else {
        decimal(n as nat)
    }
}

/// Append a number that may be negative.
pub fn push_signed(s: &mut String, n: i64)
    ensures
        final(s)@ == old(s)@ + signed(n as int),
{
    if n < 0 {
        s.append("-");
        let m: u64 = if n == i64::MIN {
            0x8000_0000_0000_0000
        } else {
            (-n) as u64
        };
        push_decimal(s, m);
        assert(s@ =~= old(s)@ + signed(n as int));
    } else {
        push_decimal(s, n as u64);
    }
}

/// The text of bytes that may not be UTF-8.
pub uninterp spec fn lossy_text(b: Seq<u8>) -> Seq<char>;

/// `String::from_utf8_lossy`: UTF-8 is decoded as it is; what replaces other bytes is left
/// to the name [`lossy_text`].
#[verifier::external_body]
pub(crate) fn text_lossy(b: &[u8]) -> (r: String)
    ensures
        r@ == lossy_text(b@),
        vstd::utf8::valid_utf8(b@) ==> r@ == vstd::utf8::decode_utf8(b@),
{
    String::from_utf8_lossy(b).into_owned()
}

/// The first place from `i` on that holds `c`, or the end.
pub open spec fn first_at(s: Seq<char>, c: char, i: int) -> int
    decreases s.len() - i,
{
    if i < 0 || i >= s.len() {
        s.len() as int
    } else if s[i] == c {
        i
    } else {
        first_at(s, c, i + 1)
    }
}

/// The last place before `n` that holds `c`, or -1.
pub open spec fn last_before(s: Seq<char>, c: char, n: int) -> int
    decreases n,
{
    if n <= 0 || n > s.len() {
        -1
    } else if s[n - 1] == c {
        n - 1
    } else {
        last_before(s, c, n - 1)
    }
}

/// The first place that holds `c`, or the end.
pub fn find_char(v: &Vec<char>, c: char) -> (r: usize)
    ensures
        r == first_at(v@, c, 0),
        r <= v@.len(),
{
    let mut i: usize = 0;
    while i < v.len() && v[i] != c
        invariant
            i <= v@.len(),
            first_at(v@, c, 0) == first_at(v@, c, i as int),
        decreases v@.len() - i,
    {
        i += 1;
    }
    i
}

/// The last place before `n` that holds `c`.
pub fn rfind_char(v: &Vec<char>, c: char, n: usize) -> (r: Option<usize>)
    requires
        n <= v@.len(),
    ensures
        match r {
            Some(i) => last_before(v@, c, n as int) == i && i < n,
            None => last_before(v@, c, n as int) == -1,
        },
{
    let mut i: usize = n;
    while i > 0
        invariant
            i <= n <= v@.len(),
            last_before(v@, c, n as int) == last_before(v@, c, i as int),
        decreases i,
    {
        if v[i - 1] == c {
            return Some(i - 1);
        }
        i -= 1;
    }
    None
}

/// The number that the decimal digits `s` write, where they are all digits.
pub open spec fn decimal_value(s: Seq<char>) -> nat
    decreases s.len(),
{
    if s.len() == 0 {
        0
    } else {
        decimal_value(s.drop_last()) * 10 + (s.last() as u32 - 48) as nat
    }
}

/// Whether every character is a decimal digit.
pub open spec fn all_digits(s: Seq<char>) -> bool {
    forall|i: int| 0 <= i < s.len() ==> '0' <= #[trigger] s[i] <= '9'
}

/// The number that a text writes, as integers are read from text: an optional plus sign
/// and at least one digit, at most `max`.
pub open spec fn parsed_number(s: Seq<char>, max: nat) -> Option<nat> {
    let d = if s.len() > 0 && s[0] == '+' {
        s.subrange(1, s.len() as int)
    } else {
        s
    };
    if d.len() > 0 && all_digits(d) && decimal_value(d) <= max {
        Some(decimal_value(d))
    } else {
        None
    }
}

/// The number that `v[from..to]` writes, where it is at most `max`.
pub fn parse_number(v: &Vec<char>, from: usize, to: usize, max: u64) -> (r: Option<u64>)
    requires
        from <= to <= v@.len(),
    ensures
        match r {
            Some(n) => parsed_number(v@.subrange(from as int, to as int), max as nat) == Some(
                n as nat,
            ),
            None => parsed_number(v@.subrange(from as int, to as int), max as nat) is None,
        },
{
    let ghost s = v@.subrange(from as int, to as int);
    let a: usize = if from < to && v[from] == '+' {
        from + 1
    } else {
        from
    };
    let ghost d = v@.subrange(a as int, to as int);
    proof {
        if a == from {
            assert(d =~= s);
            if s.len() > 0 {
                assert(s[0] == v@[from as int]);
            }
        } else {
            assert(s[0] == v@[from as int]);
            assert(d =~= s.subrange(1, s.len() as int));
        }
    }
    if a == to {
        return None;
    }
    let mut n: u64 = 0;
    let mut over: bool = false;
    let mut i: usize = a;
    assert(d.subrange(0, 0) =~= Seq::<char>::empty());
    while i < to
        invariant
            from <= a <= i <= to <= v@.len(),
            a < to,
            s == v@.subrange(from as int, to as int),
            d == v@.subrange(a as int, to as int),
            d == if s.len() > 0 && s[0] == '+' {
                s.subrange(1, s.len() as int)
            } else {
                s
            },
            forall|j: int| 0 <= j < i - a ==> '0' <= #[trigger] d[j] <= '9',
            over ==> decimal_value(d.subrange(0, i - a)) > max,
            !over ==> n == decimal_value(d.subrange(0, i - a)) && n <= max,
        decreases to - i,
    {
        let c: char = v[i];
        assert(d[i - a] == c);
        if c < '0' || c > '9' {
            assert(!all_digits(d));
            return None;
        }
        proof {
            let t = d.subrange(0, i - a + 1);
            assert(t.drop_last() =~= d.subrange(0, i - a));
            assert(t.last() == c);
        }
        if !over {
            let d: u64 = (c as u32 - 48) as u64;
            if n > max / 10 || d > max - n * 10 {
                over = true;
            } else {
                n = n * 10 + d;
            }
        }
        i += 1;
    }
    assert(d.subrange(0, to - a) =~= d);
    if over {
        None
    } else {
        Some(n)
    }
}

/// The last place that holds a character is the one after which no other does.
pub proof fn last_place_is_last(s: Seq<char>, c: char, n: int, k: int)
    requires
        0 <= n <= s.len(),
        -1 <= k < n || k == -1,
        k >= 0 ==> s[k] == c,
        forall|j: int| k < j < n && 0 <= j ==> s[j] != c,
    ensures
        last_before(s, c, n) == k,
    decreases n,
{
    if n > 0 && k < n - 1 {
        last_place_is_last(s, c, n - 1, k);
    }
}

/// The first place that holds a character is the one before which no other does; without one
/// it is the end.
pub proof fn first_place_is_first(s: Seq<char>, c: char, i: int, k: int)
    requires
        0 <= i <= k <= s.len(),
        k < s.len() ==> s[k] == c,
        forall|j: int| i <= j < k ==> s[j] != c,
    ensures
        first_at(s, c, i) == k,
    decreases k - i,
{
    if i < k {
        first_place_is_first(s, c, i + 1, k);
    }
}

/// A number in decimal is written with digits alone, without leading zeros, and is read back.
pub proof fn decimal_reads_back(n: nat, max: nat)
    ensures
        decimal(n).len() > 0,
        all_digits(decimal(n)),
        decimal(n)[0] == '0' ==> n == 0,
        decimal_value(decimal(n)) == n,
        n <= max ==> parsed_number(decimal(n), max) == Some(n),
        n > max ==> parsed_number(decimal(n), max) is None,
    decreases n,
{
    let d = decimal(n);
    if n < 10 {
        assert(d =~= seq![(48 + n) as u8 as char]);
        assert(d.drop_last() =~= Seq::<char>::empty());
        assert(decimal_value(d.drop_last()) == 0);
    } else {
        decimal_reads_back(n / 10, max);
        let c = (48 + n % 10) as u8 as char;
        assert(d =~= decimal(n / 10).push(c));
        assert(d.drop_last() =~= decimal(n / 10));
        assert(d[0] == decimal(n / 10)[0]);
    }
}

/// White space round a text is dropped, and nothing else.
pub proof fn only_white_space_is_trimmed(a: Seq<char>, s: Seq<char>, b: Seq<char>)
    requires
        forall|i: int| 0 <= i < a.len() ==> is_white(#[trigger] a[i]),
        forall|i: int| 0 <= i < b.len() ==> is_white(#[trigger] b[i]),
        s.len() > 0 ==> !is_white(s[0]) && !is_white(s.last()),
    ensures
        trimmed(a + s + b) == s,
{
    white_start(a, s + b);
    assert(a + s + b =~= a + (s + b));
    if s.len() == 0 {
        assert(s + b =~= b + s);
        white_start(b, s);
        assert(trimmed_start(s) =~= s);
        assert(trimmed_end(s) =~= s);
    } else {
        assert((s + b)[0] == s[0]);
        white_end(s, b);
    }
}

proof fn white_start(a: Seq<char>, s: Seq<char>)
    requires
        forall|i: int| 0 <= i < a.len() ==> is_white(#[trigger] a[i]),
    ensures
        trimmed_start(a + s) == trimmed_start(s),
    decreases a.len(),
{
    if a.len() > 0 {
        let rest = a.subrange(1, a.len() as int);
        assert((a + s).subrange(1, (a + s).len() as int) =~= rest + s);
        assert((a + s)[0] == a[0]);
        white_start(rest, s);
    } else {
        assert(a + s =~= s);
    }
}

proof fn white_end(s: Seq<char>, b: Seq<char>)
    requires
        forall|i: int| 0 <= i < b.len() ==> is_white(#[trigger] b[i]),
        s.len() > 0,
        !is_white(s.last()),
    ensures
        trimmed_end(s + b) == s,
    decreases b.len(),
{
    if b.len() > 0 {
        assert((s + b).drop_last() =~= s + b.drop_last());
        assert((s + b).last() == b.last());
        white_end(s, b.drop_last());
    } else {
        assert(s + b =~= s);
    }
}

/// Lower case changes the twenty-six letters and no other character, one for one.
pub proof fn lower_case_changes_letters_alone(s: Seq<char>, i: int)
    requires
        0 <= i < s.len(),
    ensures
        lowered(s).len() == s.len(),
        65 <= s[i] as u32 <= 90 ==> lowered(s)[i] as u32 == s[i] as u32 + 32,
        !(65 <= s[i] as u32 <= 90) ==> lowered(s)[i] == s[i],
{
}

/// A negative number is written with its sign.
pub proof fn signs_are_written(n: nat)
    ensures
        signed(n as int) == decimal(n),
        n > 0 ==> signed(-n) == seq!['-'] + decimal(n),
{
    reveal_strlit("-");
    assert("-"@ =~= seq!['-']);
}

/// White space is taken from the start alone, or from the end alone.
pub proof fn each_end_is_trimmed_alone(c: char, s: Seq<char>)
    ensures
        is_white(c) ==> trimmed_start(seq![c] + s) == trimmed_start(s),
        !is_white(c) ==> trimmed_start(seq![c] + s) == seq![c] + s,
        is_white(c) ==> trimmed_end(s.push(c)) == trimmed_end(s),
        !is_white(c) ==> trimmed_end(s.push(c)) == s.push(c),
        trimmed_start(Seq::<char>::empty()).len() == 0,
        trimmed_end(Seq::<char>::empty()).len() == 0,
{
    let t = seq![c] + s;
    assert(t.subrange(1, t.len() as int) =~= s);
    assert(s.push(c).drop_last() =~= s);
}

/// White space is the space, the tab and the characters that end a line or a page, and the
/// spaces of other scripts; no letter, digit or mark of ASCII is any.
pub proof fn white_space_is_this(c: char)
    ensures
        c == ' ' || c == '\t' || c == '\n' || c == '\r' || c == '\u{b}' || c == '\u{c}' || c
            == '\u{85}' || c == '\u{a0}' || c == '\u{1680}' || c == '\u{2028}' || c == '\u{2029}'
            || c == '\u{202f}' || c == '\u{205f}' || c == '\u{3000}' ==> is_white(c),
        '\u{2000}' <= c <= '\u{200a}' ==> is_white(c),
        '!' <= c <= '~' ==> !is_white(c),
        is_white(c) && c < '\u{80}' ==> c == ' ' || '\t' <= c <= '\r',
        is_white(c) && c >= '\u{80}' ==> c == '\u{85}' || c == '\u{a0}' || c == '\u{1680}'
            || '\u{2000}' <= c <= '\u{200a}' || c == '\u{2028}' || c == '\u{2029}' || c == '\u{202f}'
            || c == '\u{205f}' || c == '\u{3000}',
{
}

} // verus!

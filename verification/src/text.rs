//! Character-level text handling: whitespace, trimming, splitting, decimal
//! rendering and padding, each stated over `Seq<char>`.
use vstd::prelude::*;

verus! {

/// Unicode `White_Space`, the property that `char::is_whitespace` tests.
pub open spec fn is_white(c: char) -> bool {
    let u = c as u32;
    (0x09 <= u && u <= 0x0d) || u == 0x20 || u == 0x85 || u == 0xa0 || u == 0x1680 || (0x2000 <= u
        && u <= 0x200a) || u == 0x2028 || u == 0x2029 || u == 0x202f || u == 0x205f || u == 0x3000
}

/// `s` without its leading whitespace.
pub open spec fn trim_start(s: Seq<char>) -> Seq<char>
    decreases s.len(),
{
    if s.len() > 0 && is_white(s[0]) {
        trim_start(s.drop_first())
    } else {
        s
    }
}

/// `s` without its trailing whitespace.
pub open spec fn trim_end(s: Seq<char>) -> Seq<char>
    decreases s.len(),
{
    if s.len() > 0 && is_white(s.last()) {
        trim_end(s.drop_last())
    } else {
        s
    }
}

/// What `str::trim` leaves of `s`.
pub open spec fn trim(s: Seq<char>) -> Seq<char> {
    trim_end(trim_start(s))
}

/// Whether `c` is Unicode whitespace.
pub fn char_is_white(c: char) -> (b: bool)
    ensures
        b == is_white(c),
{
    let u = c as u32;
    (0x09 <= u && u <= 0x0d) || u == 0x20 || u == 0x85 || u == 0xa0 || u == 0x1680 || (0x2000 <= u
        && u <= 0x200a) || u == 0x2028 || u == 0x2029 || u == 0x202f || u == 0x205f || u == 0x3000
}

proof fn lemma_trim_start_skip(s: Seq<char>, a: int)
    requires
        0 <= a <= s.len(),
        forall|i: int| 0 <= i < a ==> is_white(#[trigger] s[i]),
        a == s.len() || !is_white(s[a]),
    ensures
        trim_start(s) == s.skip(a),
    decreases a,
{
    if a == 0 {
        assert(s.skip(0) =~= s);
    } else {
        let t = s.drop_first();
        assert forall|i: int| 0 <= i < a - 1 implies is_white(#[trigger] t[i]) by {
            assert(t[i] == s[i + 1]);
        }
        lemma_trim_start_skip(t, a - 1);
        assert(t.skip(a - 1) =~= s.skip(a));
    }
}

proof fn lemma_trim_end_take(s: Seq<char>, b: int)
    requires
        0 <= b <= s.len(),
        forall|i: int| b <= i < s.len() ==> is_white(#[trigger] s[i]),
        b == 0 || !is_white(s[b - 1]),
    ensures
        trim_end(s) == s.take(b),
    decreases s.len() - b,
{
    if b == s.len() {
        assert(s.take(b) =~= s);
    } else {
        let t = s.drop_last();
        assert forall|i: int| b <= i < t.len() implies is_white(#[trigger] t[i]) by {
            assert(t[i] == s[i]);
        }
        assert(is_white(s.last()));
        lemma_trim_end_take(t, b);
        assert(t.take(b) =~= s.take(b));
    }
}

/// `s` with leading and trailing whitespace removed, as `str::trim` does.
pub fn trim_str(s: &str) -> (r: &str)
    ensures
        r@ == trim(s@),
{
    let n = s.unicode_len();
    let mut a: usize = 0;
    while a < n && char_is_white(s.get_char(a))
        invariant
            n == s@.len(),
            a <= n,
            forall|i: int| 0 <= i < a ==> is_white(#[trigger] s@[i]),
        decreases n - a,
    {
        a = a + 1;
    }
    proof {
        lemma_trim_start_skip(s@, a as int);
    }
    let ghost rest = s@.skip(a as int);
    let mut b: usize = n;
    while b > a && char_is_white(s.get_char(b - 1))
        invariant
            n == s@.len(),
            a <= b <= n,
            rest == s@.skip(a as int),
            forall|i: int| b <= i < n ==> is_white(#[trigger] s@[i]),
        decreases b,
    {
        b = b - 1;
    }
    proof {
        assert forall|i: int| b - a <= i < rest.len() implies is_white(#[trigger] rest[i]) by {
            assert(rest[i] == s@[i + a]);
        }
        if b > a {
            assert(rest[b - a - 1] == s@[b - 1]);
        }
        lemma_trim_end_take(rest, (b - a) as int);
        assert(rest.take((b - a) as int) =~= s@.subrange(a as int, b as int));
    }
    s.substring_char(a, b)
}


/// Whether `a` and `b` hold the same characters.
pub fn str_equal(a: &str, b: &str) -> (r: bool)
    ensures
        r == (a@ == b@),
{
    let n = a.unicode_len();
    if n != b.unicode_len() {
        return false;
    }
    let mut i: usize = 0;
    while i < n
        invariant
            n == a@.len(),
            n == b@.len(),
            i <= n,
            forall|j: int| 0 <= j < i ==> a@[j] == b@[j],
        decreases n - i,
    {
        if a.get_char(i) != b.get_char(i) {
            return false;
        }
        i = i + 1;
    }
    assert(a@ =~= b@);
    true
}

/// The pieces of `s` between occurrences of `sep`, as `str::split` with a
/// `char` pattern yields them: one piece more than there are separators.
pub open spec fn split_on(s: Seq<char>, sep: char) -> Seq<Seq<char>>
    decreases s.len(),
{
    if s.len() == 0 {
        seq![Seq::empty()]
    } else {
        let p = split_on(s.drop_last(), sep);
        if s.last() == sep {
            p.push(Seq::empty())
        } else {
            p.update(p.len() - 1, p.last().push(s.last()))
        }
    }
}

pub proof fn lemma_split_on_nonempty(s: Seq<char>, sep: char)
    ensures
        split_on(s, sep).len() >= 1,
    decreases s.len(),
{
    if s.len() > 0 {
        lemma_split_on_nonempty(s.drop_last(), sep);
    }
}

/// The pieces of `s` between occurrences of `sep`, in order.
pub fn split_str(s: &str, sep: char) -> (pieces: Vec<&str>)
    ensures
        pieces@.map_values(|p: &str| p@) == split_on(s@, sep),
{
    let n = s.unicode_len();
    let mut pieces: Vec<&str> = Vec::new();
    let mut start: usize = 0;
    let mut i: usize = 0;
    proof {
        assert(s@.take(0) =~= Seq::<char>::empty());
        assert(pieces@.map_values(|p: &str| p@).push(s@.subrange(0, 0)) =~= seq![Seq::<char>::empty()]);
    }
    while i < n
        invariant
            n == s@.len(),
            start <= i <= n,
            pieces@.map_values(|p: &str| p@).push(s@.subrange(start as int, i as int)) == split_on(
                s@.take(i as int),
                sep,
            ),
        decreases n - i,
    {
        let c = s.get_char(i);
        let ghost prefix = s@.take(i as int);
        let ghost before = pieces@.map_values(|p: &str| p@);
        proof {
            assert(s@.take(i + 1).drop_last() =~= prefix);
            assert(s@.take(i + 1).last() == c);
            lemma_split_on_nonempty(prefix, sep);
        }
        if c == sep {
            let piece = s.substring_char(start, i);
            pieces.push(piece);
            start = i + 1;
            proof {
                assert(pieces@.map_values(|p: &str| p@) =~= before.push(piece@));
                assert(s@.subrange(start as int, i + 1) =~= Seq::<char>::empty());
            }
        } else {
            proof {
                assert(s@.subrange(start as int, i + 1) =~= s@.subrange(start as int, i as int).push(
                    c,
                ));
                let lhs = before.push(s@.subrange(start as int, i + 1));
                let p = split_on(prefix, sep);
                assert(lhs =~= p.update(p.len() - 1, p.last().push(c)));
            }
        }
        i = i + 1;
    }
    let last = s.substring_char(start, n);
    let ghost before = pieces@.map_values(|p: &str| p@);
    pieces.push(last);
    proof {
        assert(s@.take(n as int) =~= s@);
        assert(pieces@.map_values(|p: &str| p@) =~= before.push(last@));
    }
    pieces
}

/// Where `c` first occurs in `s`, or `None`.
pub open spec fn find_char(s: Seq<char>, c: char) -> Option<int>
    decreases s.len(),
{
    if s.len() == 0 {
        None
    } else if s[0] == c {
        Some(0)
    } else {
        match find_char(s.drop_first(), c) {
            Some(k) => Some(k + 1),
            None => None,
        }
    }
}

/// Where `c` first occurs, given that it does not occur before `k`.
pub proof fn lemma_find_char(s: Seq<char>, c: char, k: int)
    requires
        0 <= k <= s.len(),
        forall|j: int| 0 <= j < k ==> #[trigger] s[j] != c,
        k == s.len() || s[k] == c,
    ensures
        find_char(s, c) == (if k == s.len() { None } else { Some(k) }),
    decreases k,
{
    if k > 0 {
        let t = s.drop_first();
        assert forall|j: int| 0 <= j < k - 1 implies #[trigger] t[j] != c by {
            assert(t[j] == s[j + 1]);
        }
        assert(s[0] != c);
        lemma_find_char(t, c, k - 1);
    }
}

/// What `str::split_once` with a `char` pattern gives: the text before the
/// first `c` and the text after it.
pub open spec fn split_once(s: Seq<char>, c: char) -> Option<(Seq<char>, Seq<char>)> {
    match find_char(s, c) {
        Some(k) => Some((s.take(k), s.skip(k + 1))),
        None => None,
    }
}

/// Where `c` first occurs in `s`.
pub fn find_char_str(s: &str, c: char) -> (r: Option<usize>)
    ensures
        match r {
            Some(k) => find_char(s@, c) == Some(k as int) && k < s@.len(),
            None => find_char(s@, c) is None,
        },
{
    let n = s.unicode_len();
    let mut k: usize = 0;
    while k < n && s.get_char(k) != c
        invariant
            n == s@.len(),
            k <= n,
            forall|j: int| 0 <= j < k ==> #[trigger] s@[j] != c,
        decreases n - k,
    {
        k = k + 1;
    }
    proof {
        lemma_find_char(s@, c, k as int);
    }
    if k == n {
        None
    } else {
        Some(k)
    }
}

/// Splits `s` at the first `c`.
pub fn split_once_str(s: &str, c: char) -> (r: Option<(&str, &str)>)
    ensures
        match r {
            Some((a, b)) => split_once(s@, c) == Some((a@, b@)),
            None => split_once(s@, c) is None,
        },
{
    match find_char_str(s, c) {
        None => None,
        Some(k) => {
            let n = s.unicode_len();
            let a = s.substring_char(0, k);
            let b = s.substring_char(k + 1, n);
            proof {
                assert(a@ =~= s@.take(k as int));
                assert(b@ =~= s@.skip(k + 1));
            }
            Some((a, b))
        },
    }
}

/// Whether `c` is an ASCII decimal digit.
pub open spec fn is_digit(c: char) -> bool {
    0x30 <= (c as u32) && (c as u32) <= 0x39
}

/// The value of the ASCII digit `c`.
pub open spec fn digit_value(c: char) -> nat {
    ((c as u32) - 0x30) as nat
}

/// The value of a string of decimal digits, most significant first.
pub open spec fn digits_value(d: Seq<char>) -> nat
    decreases d.len(),
{
    if d.len() == 0 {
        0
    } else {
        digits_value(d.drop_last()) * 10 + digit_value(d.last())
    }
}

/// The digits of an unsigned number's text: what follows a leading `+`,
/// when more follows it.
pub open spec fn unsigned_digits(t: Seq<char>) -> Seq<char> {
    if t.len() > 1 && t[0] == '+' {
        t.drop_first()
    } else {
        t
    }
}

/// What `str::parse::<u16>` accepts and gives: an optional `+` (when more
/// follows), then one or more ASCII digits whose value fits in 16 bits.
pub open spec fn parse_u16(t: Seq<char>) -> Option<u16> {
    let d = unsigned_digits(t);
    if d.len() > 0 && (forall|i: int| 0 <= i < d.len() ==> is_digit(#[trigger] d[i]))
        && digits_value(d) <= 0xffff {
        Some(digits_value(d) as u16)
    } else {
        None
    }
}

proof fn lemma_digits_value_prefix(d: Seq<char>, k: int)
    requires
        0 <= k <= d.len(),
    ensures
        digits_value(d.take(k)) <= digits_value(d),
    decreases d.len() - k,
{
    if k < d.len() {
        lemma_digits_value_prefix(d.drop_last(), k);
        assert(d.drop_last().take(k) =~= d.take(k));
    } else {
        assert(d.take(k) =~= d);
    }
}

/// Parses `s` as `str::parse::<u16>` does.
pub fn parse_u16_str(s: &str) -> (r: Option<u16>)
    ensures
        r == parse_u16(s@),
{
    let n = s.unicode_len();
    if n == 0 {
        return None;
    }
    let mut i: usize = 0;
    if n > 1 && s.get_char(0) == '+' {
        i = 1;
    }
    let off = i;
    let ghost d = unsigned_digits(s@);
    assert(d =~= s@.skip(off as int));
    let mut acc: u32 = 0;
    while i < n
        invariant
            n == s@.len(),
            off <= i <= n,
            d == unsigned_digits(s@),
            d == s@.skip(off as int),
            d.len() > 0,
            forall|j: int| 0 <= j < i - off ==> is_digit(#[trigger] d[j]),
            acc == digits_value(d.take(i - off)),
            acc <= 0xffff,
        decreases n - i,
    {
        let c = s.get_char(i);
        let u = c as u32;
        if u < 0x30 || u > 0x39 {
            assert(!is_digit(d[i - off]));
            assert(!(forall|j: int| 0 <= j < d.len() ==> is_digit(#[trigger] d[j])));
            return None;
        }
        proof {
            assert(d.take(i - off + 1).drop_last() =~= d.take(i - off));
            assert(d.take(i - off + 1).last() == d[i - off]);
        }
        acc = acc * 10 + (u - 0x30);
        assert(acc == digits_value(d.take(i - off + 1)));
        if acc > 0xffff {
            proof {
                lemma_digits_value_prefix(d, i - off + 1);
            }
            assert(digits_value(d) > 0xffff);
            return None;
        }
        i = i + 1;
    }
    assert(d.take(n - off) =~= d);
    Some(acc as u16)
}

/// The character of the decimal digit `d`.
pub open spec fn digit_char(d: nat) -> char {
    if d == 0 {
        '0'
    } else if d == 1 {
        '1'
    } else if d == 2 {
        '2'
    } else if d == 3 {
        '3'
    } else if d == 4 {
        '4'
    } else if d == 5 {
        '5'
    } else if d == 6 {
        '6'
    } else if d == 7 {
        '7'
    } else if d == 8 {
        '8'
    } else {
        '9'
    }
}

/// The decimal rendering of `n`, as `Display` writes an unsigned integer.
pub open spec fn decimal(n: nat) -> Seq<char>
    decreases n,
{
    if n < 10 {
        seq![digit_char(n)]
    } else {
        decimal(n / 10).push(digit_char(n % 10))
    }
}

/// The decimal rendering of `n`, with a `-` before a negative number.
pub open spec fn signed_decimal(n: int) -> Seq<char> {
    if n < 0 {
        seq!['-'] + decimal((-n) as nat)
    } else {
        decimal(n as nat)
    }
}

fn digit_str(d: u64) -> (r: &'static str)
    requires
        d < 10,
    ensures
        r@ == seq![digit_char(d as nat)],
{
    proof {
        reveal_strlit("0");
        reveal_strlit("1");
        reveal_strlit("2");
        reveal_strlit("3");
        reveal_strlit("4");
        reveal_strlit("5");
        reveal_strlit("6");
        reveal_strlit("7");
        reveal_strlit("8");
        reveal_strlit("9");
    }
    if d == 0 {
        "0"
    } else if d == 1 {
        "1"
    } else if d == 2 {
        "2"
    } else if d == 3 {
        "3"
    } else if d == 4 {
        "4"
    } else if d == 5 {
        "5"
    } else if d == 6 {
        "6"
    } else if d == 7 {
        "7"
    } else if d == 8 {
        "8"
    } else {
        "9"
    }
}

/// `n` written in decimal.
pub fn decimal_string(n: u64) -> (r: String)
    ensures
        r@ == decimal(n as nat),
    decreases n,
{
    if n < 10 {
        digit_str(n).to_owned()
    } else {
        let mut s = decimal_string(n / 10);
        s.append(digit_str(n % 10));
        s
    }
}

/// `n` written in decimal, with a leading `-` when negative.
pub fn signed_decimal_string(n: i64) -> (r: String)
    ensures
        r@ == signed_decimal(n as int),
{
    if n < 0 {
        let m: u64 = (-(n as i128)) as u64;
        let mut s = "-".to_owned();
        proof {
            reveal_strlit("-");
        }
        s.append(decimal_string(m).as_str());
        s
    } else {
        decimal_string(n as u64)
    }
}

/// `k` spaces.
pub open spec fn spaces(k: nat) -> Seq<char> {
    Seq::new(k, |_i: int| ' ')
}

/// `s` right-aligned in a field of `w` characters, as `{:>w}` formats it.
pub open spec fn pad_left(s: Seq<char>, w: nat) -> Seq<char> {
    if s.len() < w {
        spaces((w - s.len()) as nat) + s
    } else {
        s
    }
}

/// `s` left-aligned in a field of `w` characters, as `{:<w}` formats it.
pub open spec fn pad_right(s: Seq<char>, w: nat) -> Seq<char> {
    if s.len() < w {
        s + spaces((w - s.len()) as nat)
    } else {
        s
    }
}

/// Appends `k` spaces to `s`.
pub fn push_spaces(s: &mut String, k: usize)
    ensures
        final(s)@ == old(s)@ + spaces(k as nat),
{
    let mut i: usize = 0;
    proof {
        reveal_strlit(" ");
        assert(old(s)@ + spaces(0) =~= old(s)@);
    }
    while i < k
        invariant
            i <= k,
            s@ == old(s)@ + spaces(i as nat),
        decreases k - i,
    {
        proof {
            reveal_strlit(" ");
        }
        s.append(" ");
        i = i + 1;
        assert(s@ =~= old(s)@ + spaces(i as nat));
    }
}

/// Appends `t`, right-aligned in a field of `w` characters, to `s`.
pub fn push_padded_left(s: &mut String, t: &str, w: usize)
    ensures
        final(s)@ == old(s)@ + pad_left(t@, w as nat),
{
    let n = t.unicode_len();
    if n < w {
        push_spaces(s, w - n);
    }
    s.append(t);
    assert(s@ =~= old(s)@ + pad_left(t@, w as nat));
}

/// Appends `t`, left-aligned in a field of `w` characters, to `s`.
pub fn push_padded_right(s: &mut String, t: &str, w: usize)
    ensures
        final(s)@ == old(s)@ + pad_right(t@, w as nat),
{
    let n = t.unicode_len();
    s.append(t);
    if n < w {
        push_spaces(s, w - n);
    }
    assert(s@ =~= old(s)@ + pad_right(t@, w as nat));
}

/// The parts joined with `sep` between each two, as `[..].join(sep)` does.
pub open spec fn join(parts: Seq<Seq<char>>, sep: Seq<char>) -> Seq<char>
    decreases parts.len(),
{
    if parts.len() == 0 {
        Seq::empty()
    } else if parts.len() == 1 {
        parts[0]
    } else {
        join(parts.drop_last(), sep) + sep + parts.last()
    }
}


proof fn lemma_digit_char(d: nat)
    requires
        d < 10,
    ensures
        is_digit(digit_char(d)),
        digit_value(digit_char(d)) == d,
{
    assert('0' as u32 == 0x30);
    assert('1' as u32 == 0x31);
    assert('2' as u32 == 0x32);
    assert('3' as u32 == 0x33);
    assert('4' as u32 == 0x34);
    assert('5' as u32 == 0x35);
    assert('6' as u32 == 0x36);
    assert('7' as u32 == 0x37);
    assert('8' as u32 == 0x38);
    assert('9' as u32 == 0x39);
}

/// Decimal text is made of digits, is never empty, and reads back as the
/// number it was written from.
pub proof fn lemma_decimal_digits(n: nat)
    ensures
        decimal(n).len() >= 1,
        forall|i: int| 0 <= i < decimal(n).len() ==> is_digit(#[trigger] decimal(n)[i]),
        digits_value(decimal(n)) == n,
    decreases n,
{
    if n < 10 {
        lemma_digit_char(n);
        assert(decimal(n).drop_last() =~= Seq::<char>::empty());
        assert(digits_value(Seq::<char>::empty()) == 0);
        assert(digits_value(decimal(n)) == digits_value(decimal(n).drop_last()) * 10 + digit_value(
            decimal(n).last(),
        ));
    } else {
        lemma_digit_char(n % 10);
        assert(n == (n / 10) * 10 + n % 10);
        lemma_decimal_digits(n / 10);
        let d = decimal(n);
        assert(d.drop_last() =~= decimal(n / 10));
        assert(digits_value(d) == digits_value(decimal(n / 10)) * 10 + digit_value(d.last()));
        assert forall|i: int| 0 <= i < d.len() implies is_digit(#[trigger] d[i]) by {
            if i < d.len() - 1 {
                assert(d[i] == decimal(n / 10)[i]);
            }
        }
    }
}

/// What `decimal` writes for a 16-bit number, `str::parse::<u16>` reads
/// back as that number.
pub proof fn lemma_parse_decimal_u16(n: u16)
    ensures
        parse_u16(decimal(n as nat)) == Some(n),
{
    lemma_decimal_digits(n as nat);
    let d = decimal(n as nat);
    assert(is_digit(d[0]));
    assert(unsigned_digits(d) == d);
}

/// Text that neither starts nor ends with whitespace is its own trim.
pub proof fn lemma_trim_unchanged(s: Seq<char>)
    requires
        s.len() > 0,
        !is_white(s[0]),
        !is_white(s.last()),
    ensures
        trim(s) == s,
{
}

/// Appending text without `sep` to `p` extends the last piece of `p`.
pub proof fn lemma_split_on_extend(p: Seq<char>, t: Seq<char>, sep: char)
    requires
        forall|i: int| 0 <= i < t.len() ==> #[trigger] t[i] != sep,
    ensures
        split_on(p + t, sep) == split_on(p, sep).update(
            split_on(p, sep).len() - 1,
            split_on(p, sep).last() + t,
        ),
    decreases t.len(),
{
    lemma_split_on_nonempty(p, sep);
    if t.len() == 0 {
        assert(p + t =~= p);
        assert(split_on(p, sep).last() + t =~= split_on(p, sep).last());
        assert(split_on(p, sep).update(split_on(p, sep).len() - 1, split_on(p, sep).last())
            =~= split_on(p, sep));
    } else {
        let t0 = t.drop_last();
        lemma_split_on_extend(p, t0, sep);
        assert((p + t).drop_last() =~= p + t0);
        assert((p + t).last() == t.last());
        lemma_split_on_nonempty(p + t0, sep);
        let q = split_on(p, sep);
        let w = split_on(p + t0, sep);
        assert(t[t.len() - 1] != sep);
        assert(w == q.update(q.len() - 1, q.last() + t0));
        assert(w.last() == q.last() + t0);
        assert(split_on(p + t, sep) == w.update(w.len() - 1, w.last().push(t.last())));
        assert((q.last() + t0).push(t.last()) =~= q.last() + t);
        assert(split_on(p + t, sep) =~= q.update(q.len() - 1, q.last() + t));
    }
}

/// Splitting parts that hold no `sep`, joined with `sep`, gives the parts
/// back.
pub proof fn lemma_split_join(parts: Seq<Seq<char>>, sep: char)
    requires
        parts.len() >= 1,
        forall|k: int, i: int|
            0 <= k < parts.len() && 0 <= i < parts[k].len() ==> #[trigger] parts[k][i] != sep,
    ensures
        split_on(join(parts, seq![sep]), sep) == parts,
    decreases parts.len(),
{
    if parts.len() == 1 {
        lemma_split_on_extend(Seq::empty(), parts[0], sep);
        assert(Seq::<char>::empty() + parts[0] =~= parts[0]);
        assert(split_on(Seq::<char>::empty(), sep) =~= seq![Seq::<char>::empty()]);
        assert(Seq::<char>::empty() + parts[0] =~= parts[0]);
        assert(split_on(parts[0], sep) =~= seq![parts[0]]);
    } else {
        let init = parts.drop_last();
        lemma_split_join(init, sep);
        let head = join(init, seq![sep]) + seq![sep];
        assert(head.drop_last() =~= join(init, seq![sep]));
        assert(split_on(head, sep) == init.push(Seq::empty()));
        lemma_split_on_extend(head, parts.last(), sep);
        assert(Seq::<char>::empty() + parts.last() =~= parts.last());
        assert(join(parts, seq![sep]) == head + parts.last());
        assert(init.push(Seq::empty()).update(init.len() as int, parts.last()) =~= parts);
    }
}


/// Spaces before text that neither starts nor ends with whitespace are all
/// that trimming removes.
pub proof fn lemma_trim_after_spaces(k: nat, s: Seq<char>)
    requires
        s.len() > 0,
        !is_white(s[0]),
        !is_white(s.last()),
    ensures
        trim(spaces(k) + s) == s,
{
    let t = spaces(k) + s;
    assert(' ' as u32 == 0x20);
    assert forall|i: int| 0 <= i < k implies is_white(#[trigger] t[i]) by {
        assert(t[i] == ' ');
    }
    assert(t[k as int] == s[0]);
    lemma_trim_start_skip(t, k as int);
    assert(t.skip(k as int) =~= s);
    lemma_trim_unchanged(s);
}

} // verus!

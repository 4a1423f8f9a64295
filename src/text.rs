use vstd::prelude::*;

verus! {

/// The pieces of `s` between occurrences of `sep`, as `str::split` yields them:
/// always at least one piece, empty pieces kept.
pub open spec fn split(s: Seq<char>, sep: char) -> Seq<Seq<char>>
    decreases s.len(),
{
    if s.len() == 0 {
        seq![Seq::empty()]
    } else {
        let p = split(s.drop_last(), sep);
        if s.last() == sep {
            p.push(Seq::empty())
        } else {
            p.update(p.len() - 1, p.last().push(s.last()))
        }
    }
}

pub proof fn lemma_split_nonempty(s: Seq<char>, sep: char)
    ensures
        split(s, sep).len() >= 1,
    decreases s.len(),
{
    if s.len() > 0 {
        lemma_split_nonempty(s.drop_last(), sep);
    }
}

pub open spec fn is_digit(c: char) -> bool {
    '0' <= c && c <= '9'
}

pub open spec fn all_digits(s: Seq<char>) -> bool {
    forall|i: int| 0 <= i < s.len() ==> is_digit(#[trigger] s[i])
}

/// The decimal value of a string of digits.
pub open spec fn digits_value(s: Seq<char>) -> int
    decreases s.len(),
{
    if s.len() == 0 {
        0
    } else {
        10 * digits_value(s.drop_last()) + (s.last() as int - '0' as int)
    }
}

/// The value of a non-empty run of digits.
pub open spec fn magnitude(s: Seq<char>) -> Option<int> {
    if s.len() > 0 && all_digits(s) {
        Some(digits_value(s))
    } else {
        None
    }
}

/// An optionally signed decimal integer, as `str::parse` reads one.
pub open spec fn int_of(s: Seq<char>) -> Option<int> {
    if s.len() > 0 && s[0] == '-' {
        match magnitude(s.skip(1)) {
            Some(m) => Some(-m),
            None => None,
        }
    } else if s.len() > 0 && s[0] == '+' {
        magnitude(s.skip(1))
    } else {
        magnitude(s)
    }
}

pub open spec fn i32_of(s: Seq<char>) -> Option<i32> {
    match int_of(s) {
        Some(v) => if i32::MIN <= v <= i32::MAX {
            Some(v as i32)
        } else {
            None
        },
        None => None,
    }
}

/// An unsigned decimal integer, as `str::parse` reads one: no minus sign.
pub open spec fn usize_of(s: Seq<char>) -> Option<usize> {
    if s.len() > 0 && s[0] == '-' {
        None
    } else {
        match int_of(s) {
            Some(v) => if 0 <= v <= usize::MAX {
                Some(v as usize)
            } else {
                None
            },
            None => None,
        }
    }
}

/// An unsigned 32-bit decimal integer, as `str::parse` reads one: no minus sign.
pub open spec fn u32_of(s: Seq<char>) -> Option<u32> {
    if s.len() > 0 && s[0] == '-' {
        None
    } else {
        match int_of(s) {
            Some(v) => if 0 <= v <= u32::MAX {
                Some(v as u32)
            } else {
                None
            },
            None => None,
        }
    }
}

proof fn lemma_digits_value_nonneg(s: Seq<char>)
    requires
        all_digits(s),
    ensures
        digits_value(s) >= 0,
    decreases s.len(),
{
    if s.len() > 0 {
        assert(all_digits(s.drop_last()));
        lemma_digits_value_nonneg(s.drop_last());
    }
}

/// The characters of `s`, one per element.
pub fn chars_of(s: &str) -> (r: Vec<char>)
    ensures
        r@ == s@,
{
    let n = s.unicode_len();
    let mut r: Vec<char> = Vec::new();
    let mut i: usize = 0;
    while i < n
        invariant
            i <= n,
            n == s@.len(),
            r@ == s@.subrange(0, i as int),
        decreases n - i,
    {
        r.push(s.get_char(i));
        i += 1;
        assert(r@ =~= s@.subrange(0, i as int));
    }
    assert(r@ =~= s@);
    r
}

/// Whether `chars[start..end]` spells out `word`.
pub fn is_word(chars: &Vec<char>, start: usize, end: usize, word: &str) -> (r: bool)
    requires
        start <= end <= chars@.len(),
    ensures
        r == (chars@.subrange(start as int, end as int) == word@),
{
    let n = word.unicode_len();
    if end - start != n {
        return false;
    }
    let mut k: usize = 0;
    while k < n
        invariant
            k <= n,
            n == word@.len(),
            end - start == n,
            start <= end <= chars@.len(),
            forall|j: int| 0 <= j < k ==> chars@[start + j] == word@[j],
        decreases n - k,
    {
        if chars[start + k] != word.get_char(k) {
            assert(chars@.subrange(start as int, end as int)[k as int] != word@[k as int]);
            return false;
        }
        k += 1;
    }
    assert(chars@.subrange(start as int, end as int) =~= word@);
    true
}

/// The ranges of the pieces of `chars[start..end]` between occurrences of `sep`.
pub fn split_ranges(chars: &Vec<char>, start: usize, end: usize, sep: char) -> (r: Vec<
    (usize, usize),
>)
    requires
        start <= end <= chars@.len(),
    ensures
        r@.len() == split(chars@.subrange(start as int, end as int), sep).len(),
        r@.len() >= 1,
        forall|j: int|
            #![trigger r@[j]]
            0 <= j < r@.len() ==> start <= r@[j].0 <= r@[j].1 <= end && chars@.subrange(
                r@[j].0 as int,
                r@[j].1 as int,
            ) == split(chars@.subrange(start as int, end as int), sep)[j],
{
    let mut r: Vec<(usize, usize)> = Vec::new();
    r.push((start, start));
    let mut i: usize = start;
    assert(chars@.subrange(start as int, start as int) =~= Seq::<char>::empty());
    while i < end
        invariant
            start <= i <= end <= chars@.len(),
            r@.len() == split(chars@.subrange(start as int, i as int), sep).len(),
            r@.len() >= 1,
            r@[r@.len() - 1].1 == i,
            forall|j: int|
                #![trigger r@[j]]
                0 <= j < r@.len() ==> start <= r@[j].0 <= r@[j].1 <= i && chars@.subrange(
                    r@[j].0 as int,
                    r@[j].1 as int,
                ) == split(chars@.subrange(start as int, i as int), sep)[j],
        decreases end - i,
    {
        let ghost old_r = r@;
        assert(chars@.subrange(start as int, i + 1).drop_last() =~= chars@.subrange(
            start as int,
            i as int,
        ));
        let c = chars[i];
        if c == sep {
            r.push((i + 1, i + 1));
            assert(chars@.subrange(i + 1, i + 1) =~= Seq::<char>::empty());
            assert forall|j: int| #![trigger r@[j]] 0 <= j < r@.len() implies chars@.subrange(
                r@[j].0 as int,
                r@[j].1 as int,
            ) == split(chars@.subrange(start as int, i + 1), sep)[j] by {
                if j < old_r.len() {
                    assert(r@[j] == old_r[j]);
                }
            }
        } else {
            let last = r.len() - 1;
            let (a, _) = r[last];
            r.set(last, (a, i + 1));
            assert(chars@.subrange(a as int, i + 1) =~= chars@.subrange(a as int, i as int).push(
                c,
            ));
            assert forall|j: int| #![trigger r@[j]] 0 <= j < r@.len() implies start <= r@[j].0
                <= r@[j].1 <= i + 1 && chars@.subrange(r@[j].0 as int, r@[j].1 as int) == split(
                chars@.subrange(start as int, i + 1),
                sep,
            )[j] by {
                if j < last {
                    assert(r@[j] == old_r[j]);
                }
            }
        }
        i += 1;
    }
    r
}

/// The run of digits `chars[start..end]` read as a number no larger than `limit`.
fn parse_magnitude(chars: &Vec<char>, start: usize, end: usize, limit: u64) -> (r: Option<u64>)
    requires
        start <= end <= chars@.len(),
    ensures
        r is Some <==> (magnitude(chars@.subrange(start as int, end as int)) is Some
            && magnitude(chars@.subrange(start as int, end as int))->0 <= limit),
        r is Some ==> r->0 == magnitude(chars@.subrange(start as int, end as int))->0,
{
    if start == end {
        return None;
    }
    let mut v: u128 = 0;
    let mut over = false;
    let mut k: usize = start;
    assert(chars@.subrange(start as int, start as int) =~= Seq::<char>::empty());
    while k < end
        invariant
            start <= k <= end <= chars@.len(),
            all_digits(chars@.subrange(start as int, k as int)),
            !over ==> v == digits_value(chars@.subrange(start as int, k as int)) && v <= limit,
            over ==> digits_value(chars@.subrange(start as int, k as int)) > limit,
        decreases end - k,
    {
        let c = chars[k];
        let ghost p = chars@.subrange(start as int, k as int);
        let ghost q = chars@.subrange(start as int, k + 1);
        assert(q.drop_last() =~= p);
        if !('0' <= c && c <= '9') {
            assert(q[q.len() - 1] == c);
            assert(!all_digits(chars@.subrange(start as int, end as int))) by {
                assert(chars@.subrange(start as int, end as int)[k - start] == c);
            }
            return None;
        }
        assert(all_digits(q)) by {
            assert forall|i: int| 0 <= i < q.len() implies is_digit(#[trigger] q[i]) by {
                if i < p.len() {
                    assert(q[i] == p[i]);
                }
            }
        }
        let d = (c as u32 - '0' as u32) as u128;
        if !over {
            v = v * 10 + d;
            if v > limit as u128 {
                over = true;
            }
        } else {
            proof {
                lemma_digits_value_nonneg(p);
            }
        }
        k += 1;
    }
    assert(chars@.subrange(start as int, k as int) =~= chars@.subrange(start as int, end as int));
    if over {
        None
    } else {
        Some(v as u64)
    }
}

/// `chars[start..end]` read as a signed 32-bit decimal integer.
pub fn parse_i32(chars: &Vec<char>, start: usize, end: usize) -> (r: Option<i32>)
    requires
        start <= end <= chars@.len(),
    ensures
        r == i32_of(chars@.subrange(start as int, end as int)),
{
    let ghost s = chars@.subrange(start as int, end as int);
    if start < end && chars[start] == '-' {
        assert(s.skip(1) =~= chars@.subrange(start + 1, end as int));
        match parse_magnitude(chars, start + 1, end, 0x8000_0000) {
            Some(m) => Some((0 - (m as i64)) as i32),
            None => {
                proof {
                    if magnitude(s.skip(1)) is Some {
                        lemma_digits_value_nonneg(s.skip(1));
                    }
                }
                None
            },
        }
    } else if start < end && chars[start] == '+' {
        assert(s.skip(1) =~= chars@.subrange(start + 1, end as int));
        match parse_magnitude(chars, start + 1, end, 0x7fff_ffff) {
            Some(m) => Some(m as i32),
            None => None,
        }
    } else {
        match parse_magnitude(chars, start, end, 0x7fff_ffff) {
            Some(m) => Some(m as i32),
            None => None,
        }
    }
}

/// `chars[start..end]` read as an unsigned decimal integer.
pub fn parse_usize(chars: &Vec<char>, start: usize, end: usize) -> (r: Option<usize>)
    requires
        start <= end <= chars@.len(),
    ensures
        r == usize_of(chars@.subrange(start as int, end as int)),
{
    let ghost s = chars@.subrange(start as int, end as int);
    if start < end && chars[start] == '-' {
        None
    } else if start < end && chars[start] == '+' {
        assert(s.skip(1) =~= chars@.subrange(start + 1, end as int));
        match parse_magnitude(chars, start + 1, end, usize::MAX as u64) {
            Some(m) => Some(m as usize),
            None => None,
        }
    } else {
        match parse_magnitude(chars, start, end, usize::MAX as u64) {
            Some(m) => Some(m as usize),
            None => None,
        }
    }
}

/// `chars[start..end]` read as an unsigned 32-bit decimal integer.
pub fn parse_u32(chars: &Vec<char>, start: usize, end: usize) -> (r: Option<u32>)
    requires
        start <= end <= chars@.len(),
    ensures
        r == u32_of(chars@.subrange(start as int, end as int)),
{
    let ghost s = chars@.subrange(start as int, end as int);
    if start < end && chars[start] == '-' {
        None
    } else if start < end && chars[start] == '+' {
        assert(s.skip(1) =~= chars@.subrange(start + 1, end as int));
        match parse_magnitude(chars, start + 1, end, u32::MAX as u64) {
            Some(m) => Some(m as u32),
            None => None,
        }
    } else {
        match parse_magnitude(chars, start, end, u32::MAX as u64) {
            Some(m) => Some(m as u32),
            None => None,
        }
    }
}

/// The pieces of `t` joined with `sep` between them; the inverse of `split`.
pub open spec fn join(t: Seq<Seq<char>>, sep: char) -> Seq<char>
    decreases t.len(),
{
    if t.len() == 0 {
        seq![]
    } else if t.len() == 1 {
        t[0]
    } else {
        join(t.drop_last(), sep) + seq![sep] + t.last()
    }
}

pub open spec fn free_of(s: Seq<char>, c: char) -> bool {
    forall|i: int| 0 <= i < s.len() ==> s[i] != c
}

pub proof fn lemma_split_free(s: Seq<char>, sep: char)
    requires
        free_of(s, sep),
    ensures
        split(s, sep) == seq![s],
    decreases s.len(),
{
    if s.len() > 0 {
        assert(free_of(s.drop_last(), sep));
        lemma_split_free(s.drop_last(), sep);
        assert(s.drop_last().push(s.last()) =~= s);
        assert(split(s, sep) =~= seq![s]);
    } else {
        assert(s =~= Seq::<char>::empty());
    }
}

pub proof fn lemma_split_concat(a: Seq<char>, b: Seq<char>, sep: char)
    ensures
        split(a + seq![sep] + b, sep) == split(a, sep) + split(b, sep),
    decreases b.len(),
{
    let s = a + seq![sep] + b;
    if b.len() == 0 {
        assert(s.drop_last() =~= a);
        assert(b =~= Seq::<char>::empty());
        assert(split(s, sep) =~= split(a, sep) + split(b, sep));
    } else {
        let b2 = b.drop_last();
        lemma_split_concat(a, b2, sep);
        lemma_split_nonempty(b2, sep);
        lemma_split_nonempty(a, sep);
        assert(s.drop_last() =~= a + seq![sep] + b2);
        assert(s.last() == b.last());
        assert(split(s, sep) =~= split(a, sep) + split(b, sep));
    }
}

pub proof fn lemma_split_join(t: Seq<Seq<char>>, sep: char)
    requires
        t.len() >= 1,
        forall|i: int| 0 <= i < t.len() ==> free_of(#[trigger] t[i], sep),
    ensures
        split(join(t, sep), sep) == t,
    decreases t.len(),
{
    if t.len() == 1 {
        lemma_split_free(t[0], sep);
        assert(seq![t[0]] =~= t);
    } else {
        let p = t.drop_last();
        assert forall|i: int| 0 <= i < p.len() implies free_of(#[trigger] p[i], sep) by {
            assert(p[i] == t[i]);
        }
        lemma_split_join(p, sep);
        lemma_split_concat(join(p, sep), t.last(), sep);
        assert(free_of(t[t.len() - 1], sep));
        lemma_split_free(t.last(), sep);
        assert(p + seq![t.last()] =~= t);
    }
}

pub open spec fn digit_char(d: int) -> char {
    if d == 0 {
        '0'
    } else if d == 1 {
        '1'
    } else if d == 2 {
        '2'
    } else if d == 3 {
        '3'
    } else if d == 4 {
        '4'
    } else if d == 5 {
        '5'
    } else if d == 6 {
        '6'
    } else if d == 7 {
        '7'
    } else if d == 8 {
        '8'
    } else {
        '9'
    }
}

/// The decimal digits of a non-negative number, without leading zeros.
pub open spec fn digits_of(n: nat) -> Seq<char>
    decreases n,
{
    if n < 10 {
        seq![digit_char(n as int)]
    } else {
        digits_of(n / 10).push(digit_char((n % 10) as int))
    }
}

/// The decimal form of an integer, with a leading `-` when it is negative.
pub open spec fn decimal(n: int) -> Seq<char> {
    if n < 0 {
        seq!['-'] + digits_of((-n) as nat)
    } else {
        digits_of(n as nat)
    }
}

proof fn lemma_digit_char(d: int)
    requires
        0 <= d < 10,
    ensures
        digit_char(d) as int - '0' as int == d,
        is_digit(digit_char(d)),
{
}

pub proof fn lemma_digits_of(n: nat)
    ensures
        digits_of(n).len() >= 1,
        all_digits(digits_of(n)),
        digits_value(digits_of(n)) == n,
    decreases n,
{
    if n < 10 {
        lemma_digit_char(n as int);
        let d = digits_of(n);
        assert(d.drop_last() =~= Seq::<char>::empty());
        assert(digits_value(d.drop_last()) == 0);
        assert(d.last() == digit_char(n as int));
        assert(digits_value(d) == 10 * digits_value(d.drop_last()) + (d.last() as int - '0' as int));
    } else {
        lemma_digits_of(n / 10);
        lemma_digit_char((n % 10) as int);
        let d = digits_of(n);
        assert(d.drop_last() =~= digits_of(n / 10));
        assert(n == 10 * (n / 10) + n % 10);
        assert(d.last() == digit_char((n % 10) as int));
        assert(digits_value(d) == 10 * digits_value(d.drop_last()) + (d.last() as int - '0' as int));
        assert(all_digits(d)) by {
            assert forall|i: int| 0 <= i < d.len() implies is_digit(#[trigger] d[i]) by {
                if i < d.len() - 1 {
                    assert(d[i] == digits_of(n / 10)[i]);
                }
            }
        }
    }
}

pub proof fn lemma_decimal(n: int)
    ensures
        int_of(decimal(n)) == Some(n),
        free_of(decimal(n), ','),
        free_of(decimal(n), '='),
        free_of(decimal(n), '&'),
        n >= 0 ==> decimal(n).len() > 0 && is_digit(decimal(n)[0]),
{
    if n < 0 {
        let m = (-n) as nat;
        lemma_digits_of(m);
        let s = decimal(n);
        assert(s.skip(1) =~= digits_of(m));
        assert forall|i: int| 0 <= i < s.len() implies s[i] != ',' && s[i] != '=' && s[i] != '&' by {
            if i > 0 {
                assert(s[i] == digits_of(m)[i - 1]);
                assert(is_digit(digits_of(m)[i - 1]));
            }
        }
    } else {
        lemma_digits_of(n as nat);
        let s = decimal(n);
        assert(is_digit(s[0]));
        assert forall|i: int| 0 <= i < s.len() implies s[i] != ',' && s[i] != '=' && s[i] != '&' by {
            assert(is_digit(s[i]));
        }
    }
}

} // verus!

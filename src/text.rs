use vstd::prelude::*;

verus! {

/// The characters of `s`, split at every `sep`. A string without `sep` is one field;
/// the empty string is one empty field.
#[verifier::opaque]
pub open spec fn split_spec(s: Seq<char>, sep: char) -> Seq<Seq<char>>
    decreases s.len(),
{
    if s.len() == 0 {
        seq![Seq::<char>::empty()]
    } else {
        let r = split_spec(s.drop_last(), sep);
        if s.last() == sep {
            r.push(Seq::<char>::empty())
        } else {
            r.update(r.len() - 1, r.last().push(s.last()))
        }
    }
}

/// Position of the first `c` in `s`.
pub open spec fn first_index(s: Seq<char>, c: char) -> Option<int>
    decreases s.len(),
{
    if s.len() == 0 {
        None
    } else if s[0] == c {
        Some(0)
    } else {
        match first_index(s.drop_first(), c) {
            Some(i) => Some(i + 1),
            None => None,
        }
    }
}

pub open spec fn is_digit(c: char) -> bool {
    '0' <= c && c <= '9'
}

/// Value of a run of decimal digits.
pub open spec fn digits_value(s: Seq<char>) -> int
    decreases s.len(),
{
    if s.len() == 0 {
        0
    } else {
        digits_value(s.drop_last()) * 10 + (s.last() as int - '0' as int)
    }
}

/// `s` without a leading sign.
pub open spec fn unsigned_part(s: Seq<char>) -> Seq<char> {
    if s.len() > 0 && (s[0] == '-' || s[0] == '+') {
        s.drop_first()
    } else {
        s
    }
}

proof fn lemma_not_decimal(t: Seq<char>, k: int)
    requires
        0 <= k < unsigned_part(t).len(),
        !is_digit(unsigned_part(t)[k]),
    ensures
        decimal_of(t) is None,
{
}

/// A signed decimal integer as the standard library reads an `i64`: an optional `+` or
/// `-`, then one or more digits, and a value in range.
pub open spec fn decimal_of(s: Seq<char>) -> Option<int> {
    let neg = s.len() > 0 && s[0] == '-';
    let body = unsigned_part(s);
    let v = if neg {
        -digits_value(body)
    } else {
        digits_value(body)
    };
    if body.len() > 0 && (forall|i: int| 0 <= i < body.len() ==> is_digit(#[trigger] body[i]))
        && i64::MIN <= v <= i64::MAX {
        Some(v)
    } else {
        None
    }
}

proof fn lemma_digits_monotone(s: Seq<char>, i: int, j: int)
    requires
        0 <= i <= j <= s.len(),
        forall|k: int| 0 <= k < s.len() ==> is_digit(#[trigger] s[k]),
    ensures
        digits_value(s.subrange(0, i)) <= digits_value(s.subrange(0, j)),
        digits_value(s.subrange(0, i)) >= 0,
    decreases j - i,
{
    assert(s.subrange(0, 0) =~= Seq::<char>::empty());
    if i < j {
        lemma_digits_monotone(s, i, j - 1);
        assert(s.subrange(0, j).drop_last() =~= s.subrange(0, j - 1));
        assert(is_digit(s[j - 1]));
    } else {
        lemma_digits_nonneg(s.subrange(0, i));
    }
}

proof fn lemma_digits_nonneg(s: Seq<char>)
    requires
        forall|k: int| 0 <= k < s.len() ==> is_digit(#[trigger] s[k]),
    ensures
        digits_value(s) >= 0,
    decreases s.len(),
{
    if s.len() > 0 {
        let t = s.drop_last();
        assert forall|k: int| 0 <= k < t.len() implies is_digit(#[trigger] t[k]) by {
            assert(t[k] == s[k]);
        }
        lemma_digits_nonneg(t);
        assert(is_digit(s[s.len() - 1]));
    }
}

/// The characters of `s`, one by one.
pub fn chars_of(s: &str) -> (r: Vec<char>)
    ensures
        r@ == s@,
{
    broadcast use vstd::string::group_string_axioms;

    let mut r: Vec<char> = Vec::new();
    for c in it: s.chars()
        invariant
            r@.len() == it.index(),
            forall|k: int| 0 <= k < r@.len() ==> r@[k] == it.seq()[k],
    {
        r.push(c);
    }
    assert(r@ =~= s@);
    r
}

/// Whether two strings hold the same characters.
pub fn same_text(a: &str, b: &str) -> (r: bool)
    ensures
        r == (a@ == b@),
{
    let x = chars_of(a);
    let y = chars_of(b);
    if x.len() != y.len() {
        return false;
    }
    let mut i: usize = 0;
    while i < x.len()
        invariant
            x@ == a@,
            y@ == b@,
            x.len() == y.len(),
            i <= x.len(),
            forall|k: int| 0 <= k < i ==> x@[k] == y@[k],
        decreases x.len() - i,
    {
        if x[i] != y[i] {
            return false;
        }
        i = i + 1;
    }
    assert(x@ =~= y@);
    true
}

/// How the fields of a prefix grow by one character.
proof fn lemma_split_step(s: Seq<char>, i: int, sep: char)
    requires
        0 <= i < s.len(),
    ensures
        split_spec(s.subrange(0, i + 1), sep) == (if s[i] == sep {
            split_spec(s.subrange(0, i), sep).push(Seq::<char>::empty())
        } else {
            let f = split_spec(s.subrange(0, i), sep);
            f.update(f.len() - 1, f.last().push(s[i]))
        }),
{
    reveal(split_spec);
    assert(s.subrange(0, i + 1).drop_last() =~= s.subrange(0, i));
}

/// `rk` bounds the text `f` of `s`, within the first `i` characters.
pub open spec fn bounds_field(s: Seq<char>, rk: (usize, usize), f: Seq<char>, i: int) -> bool {
    &&& rk.0 <= rk.1 <= i
    &&& s.subrange(rk.0 as int, rk.1 as int) == f
}

/// The bounds `(start, end)` of each field of `s` split at `sep`.
pub fn split_ranges(s: &Vec<char>, sep: char) -> (r: Vec<(usize, usize)>)
    ensures
        r@.len() == split_spec(s@, sep).len(),
        forall|k: int|
            0 <= k < r@.len() ==> bounds_field(
                s@,
                #[trigger] r@[k],
                split_spec(s@, sep)[k],
                s@.len() as int,
            ),
{
    let mut r: Vec<(usize, usize)> = Vec::new();
    let mut start: usize = 0;
    let mut i: usize = 0;
    let ghost mut fs: Seq<Seq<char>> = seq![Seq::<char>::empty()];
    proof {
        reveal(split_spec);
        assert(s@.subrange(0, 0) =~= Seq::<char>::empty());
    }
    while i < s.len()
        invariant
            i <= s@.len(),
            start <= i,
            fs == split_spec(s@.subrange(0, i as int), sep),
            fs.len() == r@.len() + 1,
            forall|k: int| 0 <= k < r@.len() ==> bounds_field(s@, #[trigger] r@[k], fs[k], i as int),
            s@.subrange(start as int, i as int) == fs.last(),
        decreases s@.len() - i,
    {
        let c = s[i];
        proof {
            lemma_split_step(s@, i as int, sep);
        }
        let ghost r0 = r@;
        let ghost f0 = fs;
        let ghost st0 = start;
        let ghost i0 = i;
        if c == sep {
            r.push((start, i));
            proof {
                fs = f0.push(Seq::<char>::empty());
            }
            start = i + 1;
            i = i + 1;
            assert(s@.subrange(start as int, i as int) =~= Seq::<char>::empty());
            assert forall|k: int| 0 <= k < r@.len() implies bounds_field(
                s@,
                #[trigger] r@[k],
                fs[k],
                i as int,
            ) by {
                assert(fs[k] == f0[k]);
                if k < r0.len() {
                    assert(r@[k] == r0[k]);
                    assert(bounds_field(s@, r0[k], f0[k], i0 as int));
                } else {
                    assert(r@[k] == (st0, i0));
                    assert(f0.last() == f0[k]);
                }
            }
        } else {
            proof {
                fs = f0.update(f0.len() - 1, f0.last().push(c));
            }
            assert(s@.subrange(start as int, i + 1) =~= s@.subrange(start as int, i as int).push(
                c,
            ));
            i = i + 1;
            assert forall|k: int| 0 <= k < r@.len() implies bounds_field(
                s@,
                #[trigger] r@[k],
                fs[k],
                i as int,
            ) by {
                assert(fs[k] == f0[k]);
                assert(bounds_field(s@, r0[k], f0[k], i0 as int));
            }
        }
    }
    assert(s@.subrange(0, s@.len() as int) =~= s@);
    r.push((start, i));
    r
}

/// Reads a signed decimal integer from `s[from..to]`.
pub fn decimal_in(s: &Vec<char>, from: usize, to: usize) -> (r: Option<i64>)
    requires
        from <= to <= s@.len(),
    ensures
        match r {
            Some(v) => decimal_of(s@.subrange(from as int, to as int)) == Some(v as int),
            None => decimal_of(s@.subrange(from as int, to as int)) is None,
        },
{
    let ghost t = s@.subrange(from as int, to as int);
    let mut i: usize = from;
    let mut neg = false;
    if i < to && (s[i] == '-' || s[i] == '+') {
        neg = s[i] == '-';
        i = i + 1;
    }
    let ghost body = unsigned_part(t);
    assert(body =~= s@.subrange(i as int, to as int));
    if i == to {
        return None;
    }
    let start = i;
    let mut acc: u128 = 0;
    let bound: u128 = 9223372036854775808;
    assert(body.subrange(0, 0) =~= Seq::<char>::empty());
    while i < to
        invariant
            start <= i <= to <= s@.len(),
            t == s@.subrange(from as int, to as int),
            body == unsigned_part(t),
            neg == (t.len() > 0 && t[0] == '-'),
            bound == 9223372036854775808,
            body == s@.subrange(start as int, to as int),
            forall|k: int| 0 <= k < i - start ==> is_digit(#[trigger] body[k]),
            acc as int == digits_value(body.subrange(0, i - start)),
            acc <= bound,
        decreases to - i,
    {
        let c = s[i];
        if !('0' <= c && c <= '9') {
            assert(body[i - start] == c);
            assert(!is_digit(body[i - start]));
            proof {
                lemma_not_decimal(t, i - start);
            }
            return None;
        }
        let d = (c as u32 - '0' as u32) as u128;
        assert(d <= 9);
        assert(acc * 10 <= bound * 10) by (nonlinear_arith)
            requires
                acc <= bound,
        ;
        assert(body.subrange(0, i - start + 1).drop_last() =~= body.subrange(0, i - start));
        acc = acc * 10 + d;
        i = i + 1;
        assert(body[i - start - 1] == c);
        if acc > bound {
            proof {
                if forall|k: int| 0 <= k < body.len() ==> is_digit(#[trigger] body[k]) {
                    lemma_digits_monotone(body, i - start, body.len() as int);
                    assert(body.subrange(0, body.len() as int) =~= body);
                }
            }
            return None;
        }
    }
    assert(body.subrange(0, i - start) =~= body);
    if neg {
        if acc == bound {
            Some(i64::MIN)
        } else {
            Some(-(acc as i64))
        }
    } else if acc == bound {
        None
    } else {
        Some(acc as i64)
    }
}

/// Position of the first `c` within `s[from..to]`, counted from the start of `s`.
pub fn find_char(s: &Vec<char>, c: char, from: usize, to: usize) -> (r: Option<usize>)
    requires
        from <= to <= s@.len(),
    ensures
        match first_index(s@.subrange(from as int, to as int), c) {
            Some(k) => r matches Some(j) && j == from + k,
            None => r is None,
        },
        r matches Some(k) ==> from <= k < to && s@[k as int] == c,
{
    let mut i: usize = to;
    let mut found: Option<usize> = None;
    while i > from
        invariant
            from <= i <= to <= s@.len(),
            match first_index(s@.subrange(i as int, to as int), c) {
                Some(k) => found matches Some(j) && j == i + k,
                None => found is None,
            },
            found matches Some(k) ==> i <= k < to && s@[k as int] == c,
        decreases i - from,
    {
        i = i - 1;
        assert(s@.subrange(i as int, to as int).drop_first() =~= s@.subrange(i + 1, to as int));
        if s[i] == c {
            found = Some(i);
        }
    }
    found
}

} // verus!

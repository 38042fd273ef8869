//! The text of a snapshot: lines, fields and decimal numbers, as bytes.
use vstd::prelude::*;

verus! {

/// ASCII whitespace: space, tab, line feed, vertical tab, form feed, carriage return.
pub open spec fn is_space(b: u8) -> bool {
    b == 32 || (9 <= b && b <= 13)
}

/// `s` without its leading whitespace.
pub open spec fn trim_start(s: Seq<u8>) -> Seq<u8>
    decreases s.len(),
{
    if s.len() > 0 && is_space(s[0]) {
        trim_start(s.drop_first())
    } else {
        s
    }
}

/// `s` without its trailing whitespace.
pub open spec fn trim_end(s: Seq<u8>) -> Seq<u8>
    decreases s.len(),
{
    if s.len() > 0 && is_space(s.last()) {
        trim_end(s.drop_last())
    } else {
        s
    }
}

/// `s` without whitespace at either end.
pub open spec fn trim(s: Seq<u8>) -> Seq<u8> {
    trim_end(trim_start(s))
}

/// The pieces of `s` between occurrences of the separator bytes `a` and `b`
/// (the same byte twice for a single separator). There is always at least one
/// piece; two adjacent separators give an empty one.
pub open spec fn split(s: Seq<u8>, a: u8, b: u8) -> Seq<Seq<u8>>
    decreases s.len(),
{
    if s.len() == 0 {
        seq![Seq::empty()]
    } else {
        let f = split(s.drop_last(), a, b);
        if s.last() == a || s.last() == b {
            f.push(Seq::empty())
        } else {
            f.update(f.len() - 1, f.last().push(s.last()))
        }
    }
}

/// An ASCII decimal digit.
pub open spec fn is_digit(b: u8) -> bool {
    48 <= b && b <= 57
}

/// The value of a string of decimal digits.
pub open spec fn decimal(d: Seq<u8>) -> int
    decreases d.len(),
{
    if d.len() == 0 {
        0
    } else {
        decimal(d.drop_last()) * 10 + (d.last() - 48)
    }
}

/// A non-empty string of decimal digits whose value fits in a `u32`.
pub open spec fn is_number(d: Seq<u8>) -> bool {
    &&& d.len() > 0
    &&& forall|k: int| 0 <= k < d.len() ==> is_digit(#[trigger] d[k])
    &&& decimal(d) <= u32::MAX
}

/// The values of `f` when every piece is a number.
pub open spec fn numbers_of(f: Seq<Seq<u8>>) -> Option<Seq<u32>> {
    if forall|k: int| 0 <= k < f.len() ==> is_number(#[trigger] f[k]) {
        Some(Seq::new(f.len(), |k: int| decimal(f[k]) as u32))
    } else {
        None
    }
}

/// The numbers of a line whose trimmed text is separated by spaces or by the byte `sep`.
pub open spec fn line_numbers(line: Seq<u8>, sep: u8) -> Option<Seq<u32>> {
    numbers_of(split(trim(line), 32, sep))
}

/// The lines of a text.
pub open spec fn lines(text: Seq<u8>) -> Seq<Seq<u8>> {
    split(text, 10, 10)
}

/// A line that holds numbers holds at least one.
pub proof fn lemma_numbers_nonempty(line: Seq<u8>, sep: u8)
    ensures
        line_numbers(line, sep) matches Some(v) ==> v.len() >= 1,
{
    lemma_split_nonempty(trim(line), 32, sep);
}

/// Splitting always gives at least one piece.
pub proof fn lemma_split_nonempty(s: Seq<u8>, a: u8, b: u8)
    ensures
        split(s, a, b).len() >= 1,
    decreases s.len(),
{
    if s.len() > 0 {
        lemma_split_nonempty(s.drop_last(), a, b);
    }
}

/// Digits appended to a string of digits never lower its value.
proof fn lemma_decimal_grows(d: Seq<u8>, c: u8)
    requires
        is_digit(c),
    ensures
        decimal(d.push(c)) == decimal(d) * 10 + (c - 48),
        decimal(d) >= 0 ==> decimal(d.push(c)) >= decimal(d),
{
    assert(d.push(c).drop_last() =~= d);
}

proof fn lemma_decimal_nonneg(d: Seq<u8>)
    requires
        forall|k: int| 0 <= k < d.len() ==> is_digit(#[trigger] d[k]),
    ensures
        decimal(d) >= 0,
    decreases d.len(),
{
    if d.len() > 0 {
        lemma_decimal_nonneg(d.drop_last());
        assert(is_digit(d[d.len() - 1]));
    }
}

/// The bounds of `text[start..end]` once whitespace is trimmed from both ends.
fn trim_bounds(text: &Vec<u8>, start: usize, end: usize) -> (r: (usize, usize))
    requires
        start <= end <= text@.len(),
    ensures
        start <= r.0 <= r.1 <= end,
        text@.subrange(r.0 as int, r.1 as int) == trim(text@.subrange(start as int, end as int)),
{
    let ghost s = text@;
    let mut a = start;
    while a < end && (text[a] == 32 || (9 <= text[a] && text[a] <= 13))
        invariant
            s == text@,
            start <= a <= end <= s.len(),
            trim_start(s.subrange(a as int, end as int)) == trim_start(s.subrange(start as int, end as int)),
        decreases end - a,
    {
        assert(s.subrange(a as int, end as int).drop_first() =~= s.subrange(a + 1, end as int));
        a = a + 1;
    }
    let mut b = end;
    while b > a && (text[b - 1] == 32 || (9 <= text[b - 1] && text[b - 1] <= 13))
        invariant
            s == text@,
            start <= a <= b <= end <= s.len(),
            trim_start(s.subrange(start as int, end as int)) == s.subrange(a as int, end as int),
            trim_end(s.subrange(a as int, b as int)) == trim_end(s.subrange(a as int, end as int)),
        decreases b - a,
    {
        assert(s.subrange(a as int, b as int).drop_last() =~= s.subrange(a as int, b - 1));
        b = b - 1;
    }
    (a, b)
}

/// The numbers on `text[start..end]`, trimmed, with pieces separated by
/// spaces or by `sep`; `None` unless every piece is a decimal `u32`.
pub fn parse_numbers(text: &Vec<u8>, start: usize, end: usize, sep: u8) -> (r: Option<Vec<u32>>)
    requires
        start <= end <= text@.len(),
    ensures
        r is Some <==> line_numbers(text@.subrange(start as int, end as int), sep) is Some,
        r matches Some(v) ==> v@ == line_numbers(text@.subrange(start as int, end as int), sep)->Some_0,
{
    let ghost s = text@;
    let (a, b) = trim_bounds(text, start, end);
    let ghost t = s.subrange(a as int, b as int);
    let mut vals: Vec<u32> = Vec::new();
    let mut all_ok = true;
    let mut cur: u64 = 0;
    let mut cur_ok = true;
    let mut cur_len: usize = 0;
    let mut i = a;
    proof {
        assert(s.subrange(a as int, a as int) =~= Seq::<u8>::empty());
        assert(split(Seq::<u8>::empty(), 32, sep) == seq![Seq::<u8>::empty()]);
    }
    while i < b
        invariant
            s == text@,
            a <= i <= b <= s.len(),
            split(s.subrange(a as int, i as int), 32, sep).len() == vals@.len() + 1,
            all_ok == forall|k: int|
                0 <= k < vals@.len() ==> is_number(#[trigger] split(s.subrange(a as int, i as int), 32, sep)[k]),
            all_ok ==> forall|k: int|
                0 <= k < vals@.len() ==> #[trigger] vals@[k] == decimal(split(s.subrange(a as int, i as int), 32, sep)[k]),
            cur_len == split(s.subrange(a as int, i as int), 32, sep).last().len(),
            cur_ok == ((forall|k: int| 0 <= k < cur_len ==> is_digit(#[trigger] split(s.subrange(a as int, i as int), 32, sep).last()[k]))
                && decimal(split(s.subrange(a as int, i as int), 32, sep).last()) <= u32::MAX),
            cur_ok ==> cur == decimal(split(s.subrange(a as int, i as int), 32, sep).last()),
            cur_len <= i - a,
            cur <= 0xffff_ffff,
        decreases b - i,
    {
        let ghost f = split(s.subrange(a as int, i as int), 32, sep);
        let ghost last = f.last();
        let c = text[i];
        proof {
            assert(s.subrange(a as int, i + 1).drop_last() =~= s.subrange(a as int, i as int));
            assert(s.subrange(a as int, i + 1).last() == c);
        }
        let ghost g = split(s.subrange(a as int, i + 1), 32, sep);
        if c == 32 || c == sep {
            assert(g == f.push(Seq::<u8>::empty()));
            let piece_ok = cur_ok && cur_len > 0;
            assert(piece_ok == is_number(last));
            let ghost was_ok = all_ok;
            all_ok = all_ok && piece_ok;
            vals.push(cur as u32);
            cur = 0;
            cur_ok = true;
            cur_len = 0;
            proof {
                assert(g[vals@.len() - 1] == last);
                assert forall|k: int| 0 <= k < vals@.len() - 1 implies #[trigger] g[k] == f[k] by {}
                assert(decimal(g.last()) == 0);
                if was_ok && piece_ok {
                    assert forall|k: int| 0 <= k < vals@.len() implies is_number(#[trigger] g[k]) by {
                        if k < vals@.len() - 1 {
                            assert(g[k] == f[k]);
                        }
                    }
                } else if !was_ok {
                    let k = choose|k: int| 0 <= k < vals@.len() - 1 && !is_number(#[trigger] f[k]);
                    assert(g[k] == f[k]);
                } else {
                    assert(!is_number(g[vals@.len() - 1]));
                }
            }
        } else {
            assert(g == f.update(f.len() - 1, last.push(c)));
            assert(g.last() == last.push(c));
            proof {
                assert forall|k: int| 0 <= k < vals@.len() implies #[trigger] g[k] == f[k] by {}
            }
            if 48 <= c && c <= 57 {
                proof {
                    lemma_decimal_grows(last, c);
                }
                if cur_ok {
                    let next = cur * 10 + (c - 48) as u64;
                    if next > 0xffff_ffff {
                        cur_ok = false;
                    } else {
                        cur = next;
                    }
                    proof {
                        assert forall|k: int| 0 <= k < cur_len + 1 implies is_digit(#[trigger] g.last()[k]) by {
                            if k < cur_len {
                                assert(g.last()[k] == last[k]);
                            }
                        }
                    }
                } else {
                    proof {
                        if forall|k: int| 0 <= k < cur_len + 1 ==> is_digit(#[trigger] g.last()[k]) {
                            assert forall|k: int| 0 <= k < cur_len implies is_digit(#[trigger] last[k]) by {
                                assert(g.last()[k] == last[k]);
                            }
                            lemma_decimal_nonneg(last);
                        }
                    }
                }
            } else {
                cur_ok = false;
                proof {
                    assert(!is_digit(g.last()[cur_len as int]));
                }
            }
            cur_len = cur_len + 1;
            proof {
                if all_ok {
                    assert forall|k: int| 0 <= k < vals@.len() implies is_number(#[trigger] g[k]) by {
                        assert(g[k] == f[k]);
                    }
                } else {
                    let k = choose|k: int| 0 <= k < vals@.len() && !is_number(#[trigger] f[k]);
                    assert(g[k] == f[k]);
                }
            }
        }
        i = i + 1;
    }
    let piece_ok = cur_ok && cur_len > 0;
    let ghost f = split(t, 32, sep);
    proof {
        assert(s.subrange(a as int, b as int) == t);
        assert(piece_ok == is_number(f.last()));
    }
    if all_ok && piece_ok {
        vals.push(cur as u32);
        proof {
            assert forall|k: int| 0 <= k < f.len() implies is_number(#[trigger] f[k]) by {
                if k == f.len() - 1 {
                    assert(f[k] == f.last());
                }
            }
            assert(vals@ =~= Seq::new(f.len(), |k: int| decimal(f[k]) as u32));
        }
        Some(vals)
    } else {
        proof {
            if !all_ok {
                let k = choose|k: int| 0 <= k < vals@.len() && !is_number(#[trigger] f[k]);
            } else {
                assert(!is_number(f[f.len() - 1]));
            }
        }
        None
    }
}

/// The start and end of each line of `text`, in order.
pub fn line_spans(text: &Vec<u8>) -> (r: Vec<(usize, usize)>)
    ensures
        r@.len() == lines(text@).len(),
        forall|k: int|
            0 <= k < r@.len() ==> {
                &&& (#[trigger] r@[k]).0 <= r@[k].1 <= text@.len()
                &&& text@.subrange(r@[k].0 as int, r@[k].1 as int) == lines(text@)[k]
            },
{
    let ghost s = text@;
    let mut spans: Vec<(usize, usize)> = Vec::new();
    let mut start: usize = 0;
    let mut i: usize = 0;
    proof {
        assert(s.subrange(0, 0) =~= Seq::<u8>::empty());
        assert(s.subrange(0, 0) =~= s.subrange(start as int, 0));
    }
    while i < text.len()
        invariant
            s == text@,
            start <= i <= s.len(),
            split(s.subrange(0, i as int), 10, 10).len() == spans@.len() + 1,
            forall|k: int|
                0 <= k < spans@.len() ==> {
                    &&& (#[trigger] spans@[k]).0 <= spans@[k].1 <= i
                    &&& s.subrange(spans@[k].0 as int, spans@[k].1 as int) == split(
                        s.subrange(0, i as int),
                        10,
                        10,
                    )[k]
                },
            s.subrange(start as int, i as int) == split(s.subrange(0, i as int), 10, 10).last(),
        decreases s.len() - i,
    {
        let ghost f = split(s.subrange(0, i as int), 10, 10);
        proof {
            assert(s.subrange(0, i + 1).drop_last() =~= s.subrange(0, i as int));
        }
        let ghost g = split(s.subrange(0, i + 1), 10, 10);
        if text[i] == 10 {
            assert(g == f.push(Seq::<u8>::empty()));
            spans.push((start, i));
            start = i + 1;
            proof {
                assert(s.subrange(start as int, i + 1) =~= Seq::<u8>::empty());
                assert forall|k: int| 0 <= k < spans@.len() implies #[trigger] g[k] == f[k] by {}
            }
        } else {
            assert(g == f.update(f.len() - 1, f.last().push(text[i as int])));
            proof {
                assert(s.subrange(start as int, i + 1) =~= f.last().push(s[i as int]));
                assert forall|k: int| 0 <= k < spans@.len() implies #[trigger] g[k] == f[k] by {}
            }
        }
        i = i + 1;
    }
    proof {
        assert(s.subrange(0, s.len() as int) =~= s);
    }
    spans.push((start, i));
    spans
}

} // verus!



//! Text building blocks: joining with a separator and decimal numerals.
use vstd::prelude::*;

verus! {

/// The parts, in order, with `sep` between each two neighbours.
pub open spec fn join(parts: Seq<Seq<char>>, sep: Seq<char>) -> Seq<char>
    decreases parts.len(),
{
    if parts.len() == 0 {
        Seq::empty()
    } else if parts.len() == 1 {
        parts[0]
    } else {
        join(parts.drop_last(), sep) + sep + parts.last()
    }
}

/// The views of a sequence of strings.
pub open spec fn views(v: Seq<String>) -> Seq<Seq<char>> {
    v.map_values(|s: String| s@)
}

/// Joins the parts with `sep` between each two neighbours.
pub fn join_texts(parts: &Vec<String>, sep: &str) -> (r: String)
    ensures
        r@ == join(views(parts@), sep@),
{
    let mut r = String::new();
    let n = parts.len();
    let mut i: usize = 0;
    while i < n
        invariant
            n == parts@.len(),
            0 <= i <= n,
            r@ == join(views(parts@).take(i as int), sep@),
        decreases n - i,
    {
        if i > 0 {
            r.append(sep);
        }
        r.append(parts[i].as_str());
        proof {
            let vs = views(parts@);
            assert(vs.take(i + 1).drop_last() =~= vs.take(i as int));
            if i == 0 {
                assert(r@ =~= vs.take(1)[0]);
            }
        }
        i = i + 1;
    }
    proof {
        assert(views(parts@).take(n as int) =~= views(parts@));
    }
    r
}

/// The character of a decimal digit.
pub open spec fn digit_char(d: nat) -> char {
    if d == 0 {
        '0'
    } else if d == 1 {
        '1'
    } else if d == 2 {
        '2'
    } else if d == 3 {
        '3'
    } else if d == 4 {
        '4'
    } else if d == 5 {
        '5'
    } else if d == 6 {
        '6'
    } else if d == 7 {
        '7'
    } else if d == 8 {
        '8'
    } else {
        '9'
    }
}

/// The value of a decimal digit character.
pub open spec fn digit_value(c: char) -> nat {
    if c == '1' {
        1
    } else if c == '2' {
        2
    } else if c == '3' {
        3
    } else if c == '4' {
        4
    } else if c == '5' {
        5
    } else if c == '6' {
        6
    } else if c == '7' {
        7
    } else if c == '8' {
        8
    } else if c == '9' {
        9
    } else {
        0
    }
}

pub open spec fn is_digit(c: char) -> bool {
    '0' <= c && c <= '9'
}

/// The shortest decimal numeral of `n`.
pub open spec fn decimal(n: nat) -> Seq<char>
    decreases n,
{
    if n < 10 {
        seq![digit_char(n)]
    } else {
        decimal(n / 10).push(digit_char(n % 10))
    }
}

/// The number that a string of decimal digits denotes.
pub open spec fn parse_decimal(s: Seq<char>) -> nat
    decreases s.len(),
{
    if s.len() == 0 {
        0
    } else {
        parse_decimal(s.drop_last()) * 10 + digit_value(s.last())
    }
}

proof fn lemma_digit(d: nat)
    requires
        d < 10,
    ensures
        digit_value(digit_char(d)) == d,
        is_digit(digit_char(d)),
{
}

/// A decimal numeral is made of digits only and reads back as the number it was written from.
pub proof fn lemma_decimal_round_trip(n: nat)
    ensures
        decimal(n).len() > 0,
        forall|i: int| 0 <= i < decimal(n).len() ==> is_digit(#[trigger] decimal(n)[i]),
        parse_decimal(decimal(n)) == n,
    decreases n,
{
    if n < 10 {
        lemma_digit(n);
        let d = decimal(n);
        assert(d.drop_last() =~= Seq::<char>::empty());
        assert(parse_decimal(d.drop_last()) == 0);
        assert(parse_decimal(d) == parse_decimal(d.drop_last()) * 10 + digit_value(d.last()));
    } else {
        lemma_decimal_round_trip(n / 10);
        lemma_digit(n % 10);
        let d = decimal(n);
        assert(d.drop_last() =~= decimal(n / 10));
        assert(d.last() == digit_char(n % 10));
        assert(forall|i: int| 0 <= i < d.len() - 1 ==> d[i] == decimal(n / 10)[i]);
        assert(parse_decimal(d) == parse_decimal(d.drop_last()) * 10 + digit_value(d.last()));
        assert((n / 10) * 10 + n % 10 == n) by (nonlinear_arith);
    }
}

fn digit_text(d: u16) -> (r: &'static str)
    requires
        d < 10,
    ensures
        r@ == seq![digit_char(d as nat)],
{
    if d == 0 {
        proof { reveal_strlit("0"); }
        "0"
    } else if d == 1 {
        proof { reveal_strlit("1"); }
        "1"
    } else if d == 2 {
        proof { reveal_strlit("2"); }
        "2"
    } else if d == 3 {
        proof { reveal_strlit("3"); }
        "3"
    } else if d == 4 {
        proof { reveal_strlit("4"); }
        "4"
    } else if d == 5 {
        proof { reveal_strlit("5"); }
        "5"
    } else if d == 6 {
        proof { reveal_strlit("6"); }
        "6"
    } else if d == 7 {
        proof { reveal_strlit("7"); }
        "7"
    } else if d == 8 {
        proof { reveal_strlit("8"); }
        "8"
    } else {
        proof { reveal_strlit("9"); }
        "9"
    }
}

/// The decimal numeral of `n`.
pub fn decimal_text(n: u16) -> (r: String)
    ensures
        r@ == decimal(n as nat),
    decreases n,
{
    if n < 10 {
        String::from_str(digit_text(n))
    } else {
        let mut s = decimal_text(n / 10);
        s.append(digit_text(n % 10));
        proof {
            assert(s@ =~= decimal(n as nat));
        }
        s
    }
}

/// `sub` stands in `doc` from position `p` on.
pub open spec fn occurs_at(doc: Seq<char>, sub: Seq<char>, p: int) -> bool {
    &&& 0 <= p
    &&& p + sub.len() <= doc.len()
    &&& doc.subrange(p, p + sub.len()) == sub
}

pub proof fn lemma_occurs_in_middle(a: Seq<char>, sub: Seq<char>, b: Seq<char>)
    ensures
        occurs_at(a + sub + b, sub, a.len() as int),
{
    assert((a + sub + b).subrange(a.len() as int, (a.len() + sub.len()) as int) =~= sub);
}

/// Joining without a separator: the parts one after the other.
pub proof fn lemma_join_empty_push(parts: Seq<Seq<char>>, x: Seq<char>)
    ensures
        join(parts.push(x), Seq::empty()) == join(parts, Seq::empty()) + x,
{
    assert(parts.push(x).drop_last() =~= parts);
    if parts.len() == 0 {
        assert(join(parts, Seq::empty()) + x =~= x);
    } else {
        assert(join(parts, Seq::empty()) + Seq::<char>::empty() + x =~= join(parts, Seq::empty())
            + x);
    }
}

/// Joining without a separator distributes over the concatenation of part lists.
pub proof fn lemma_join_empty_add(a: Seq<Seq<char>>, b: Seq<Seq<char>>)
    ensures
        join(a + b, Seq::empty()) == join(a, Seq::empty()) + join(b, Seq::empty()),
    decreases b.len(),
{
    if b.len() == 0 {
        assert(a + b =~= a);
        assert(join(a, Seq::empty()) + Seq::<char>::empty() =~= join(a, Seq::empty()));
    } else {
        let b0 = b.drop_last();
        lemma_join_empty_add(a, b0);
        assert(a + b =~= (a + b0).push(b.last()));
        assert(b =~= b0.push(b.last()));
        lemma_join_empty_push(a + b0, b.last());
        lemma_join_empty_push(b0, b.last());
        assert(join(a, Seq::empty()) + join(b0, Seq::empty()) + b.last() =~= join(a, Seq::empty())
            + (join(b0, Seq::empty()) + b.last()));
    }
}

/// A part of a list joined without a separator stands between the parts before and after it.
pub proof fn lemma_join_empty_at(parts: Seq<Seq<char>>, k: int)
    requires
        0 <= k < parts.len(),
    ensures
        join(parts, Seq::empty()) == join(parts.take(k), Seq::empty()) + parts[k] + join(
            parts.skip(k + 1),
            Seq::empty(),
        ),
{
    assert(parts =~= parts.take(k).push(parts[k]) + parts.skip(k + 1));
    lemma_join_empty_add(parts.take(k).push(parts[k]), parts.skip(k + 1));
    lemma_join_empty_push(parts.take(k), parts[k]);
}

/// The pieces of `s` between the occurrences of `c`.
pub open spec fn split(s: Seq<char>, c: char) -> Seq<Seq<char>>
    decreases s.len(),
{
    if s.len() == 0 {
        seq![Seq::empty()]
    } else {
        let p = split(s.drop_last(), c);
        if s.last() == c {
            p.push(Seq::empty())
        } else {
            p.update(p.len() - 1, p.last().push(s.last()))
        }
    }
}

pub proof fn lemma_split_nonempty(s: Seq<char>, c: char)
    ensures
        split(s, c).len() >= 1,
    decreases s.len(),
{
    if s.len() > 0 {
        lemma_split_nonempty(s.drop_last(), c);
    }
}

proof fn lemma_split_after(x: Seq<char>, y: Seq<char>, c: char)
    requires
        !y.contains(c),
    ensures
        split(x + seq![c] + y, c) == split(x, c).push(y),
    decreases y.len(),
{
    lemma_split_nonempty(x, c);
    if y.len() == 0 {
        let s = x + seq![c] + y;
        assert(s.drop_last() =~= x);
        assert(y =~= Seq::<char>::empty());
    } else {
        let y0 = y.drop_last();
        assert(!y0.contains(c)) by {
            if y0.contains(c) {
                let i = choose|i: int| 0 <= i < y0.len() && y0[i] == c;
                assert(y[i] == c);
            }
        }
        lemma_split_after(x, y0, c);
        let s = x + seq![c] + y;
        assert(s.drop_last() =~= x + seq![c] + y0);
        assert(s.last() == y.last());
        assert(y.last() != c) by {
            assert(y[y.len() - 1] == y.last());
        }
        assert(y0.push(y.last()) =~= y);
        assert(split(x, c).push(y0).update(split(x, c).len() as int, y) =~= split(x, c).push(y));
    }
}

proof fn lemma_split_single(y: Seq<char>, c: char)
    requires
        !y.contains(c),
    ensures
        split(y, c) == seq![y],
    decreases y.len(),
{
    if y.len() > 0 {
        let y0 = y.drop_last();
        assert(!y0.contains(c)) by {
            if y0.contains(c) {
                let i = choose|i: int| 0 <= i < y0.len() && y0[i] == c;
                assert(y[i] == c);
            }
        }
        lemma_split_single(y0, c);
        assert(y.last() != c) by {
            assert(y[y.len() - 1] == y.last());
        }
        assert(y0.push(y.last()) =~= y);
        assert(seq![y0].update(0, y) =~= seq![y]);
    } else {
        assert(y =~= Seq::<char>::empty());
    }
}

/// Parts that hold no `c`, joined with `c`, split at `c` into the same parts.
pub proof fn lemma_split_join(parts: Seq<Seq<char>>, c: char)
    requires
        parts.len() >= 1,
        forall|k: int| 0 <= k < parts.len() ==> !(#[trigger] parts[k]).contains(c),
    ensures
        split(join(parts, seq![c]), c) == parts,
    decreases parts.len(),
{
    if parts.len() == 1 {
        lemma_split_single(parts[0], c);
        assert(seq![parts[0]] =~= parts);
    } else {
        let p0 = parts.drop_last();
        assert(!parts.last().contains(c)) by {
            assert(parts[parts.len() - 1] == parts.last());
        }
        lemma_split_join(p0, c);
        lemma_split_after(join(p0, seq![c]), parts.last(), c);
        assert(p0.push(parts.last()) =~= parts);
    }
}

/// The parts with `prefix` put before each but the first.
pub open spec fn prefixed_after_first(parts: Seq<Seq<char>>, prefix: Seq<char>) -> Seq<Seq<char>> {
    Seq::new(parts.len(), |k: int| if k == 0 { parts[0] } else { prefix + parts[k] })
}

/// Joining with `sep + prefix` is joining with `sep` the parts prefixed after the first.
pub proof fn lemma_join_shift(parts: Seq<Seq<char>>, sep: Seq<char>, prefix: Seq<char>)
    ensures
        join(parts, sep + prefix) == join(prefixed_after_first(parts, prefix), sep),
    decreases parts.len(),
{
    let q = prefixed_after_first(parts, prefix);
    if parts.len() >= 2 {
        let p0 = parts.drop_last();
        lemma_join_shift(p0, sep, prefix);
        assert(q.drop_last() =~= prefixed_after_first(p0, prefix));
        assert(join(p0, sep + prefix) + (sep + prefix) + parts.last() =~= join(q.drop_last(), sep)
            + sep + q.last());
    }
}

} // verus!

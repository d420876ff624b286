use vstd::prelude::*;
use vstd::string::{StrSliceExecFns, StringExecFns};

verus! {

/// The content of a string: its characters.
pub type Text = Seq<char>;

/// Whether the text `a` comes before the text `b`, or is `b`: the order of
/// a dictionary, with the characters ordered as Unicode numbers them.
pub open spec fn precedes(a: Seq<char>, b: Seq<char>) -> bool
    decreases a.len(),
{
    if a.len() == 0 {
        true
    } else if b.len() == 0 {
        false
    } else if a[0] == b[0] {
        precedes(a.drop_first(), b.drop_first())
    } else {
        (a[0] as int) < (b[0] as int)
    }
}

/// The texts `s`, which ascend, with `x` put where it belongs: before the
/// first that does not come before it.
pub open spec fn inserted(s: Seq<Seq<char>>, x: Seq<char>) -> Seq<Seq<char>>
    decreases s.len(),
{
    if s.len() == 0 {
        seq![x]
    } else if precedes(s.last(), x) {
        s.push(x)
    } else {
        inserted(s.drop_last(), x).push(s.last())
    }
}

/// The texts `s` in ascending order.
pub open spec fn sorted(s: Seq<Seq<char>>) -> Seq<Seq<char>>
    decreases s.len(),
{
    if s.len() == 0 {
        s
    } else {
        inserted(sorted(s.drop_last()), s.last())
    }
}

/// Whether each of the texts `s` comes before the next, or is the next.
pub open spec fn ascends(s: Seq<Seq<char>>) -> bool {
    forall|i: int| 0 <= i < s.len() - 1 ==> precedes(#[trigger] s[i], s[i + 1])
}

/// Of two texts one comes before the other, or they are the same.
pub proof fn lemma_precedes_total(a: Seq<char>, b: Seq<char>)
    ensures
        precedes(a, b) || precedes(b, a),
    decreases a.len(),
{
    if a.len() > 0 && b.len() > 0 {
        if a[0] == b[0] {
            lemma_precedes_total(a.drop_first(), b.drop_first());
        } else {
            assert((a[0] as int) != (b[0] as int));
        }
    }
}

/// Putting a text where it belongs keeps the order, and adds the text to
/// what is there.
pub proof fn lemma_inserted(s: Seq<Seq<char>>, x: Seq<char>)
    requires
        ascends(s),
    ensures
        ascends(inserted(s, x)),
        inserted(s, x).len() == s.len() + 1,
        inserted(s, x).to_multiset() == s.to_multiset().insert(x),
        inserted(s, x).last() == x || (s.len() > 0 && inserted(s, x).last() == s.last()),
    decreases s.len(),
{
    broadcast use vstd::seq_lib::group_to_multiset_ensures;

    if s.len() == 0 {
        assert(seq![x] =~= Seq::<Seq<char>>::empty().push(x));
    } else if precedes(s.last(), x) {
        let r = s.push(x);
        assert forall|i: int| 0 <= i < r.len() - 1 implies precedes(#[trigger] r[i], r[i + 1]) by {
            if i < s.len() - 1 {
                assert(precedes(s[i], s[i + 1]));
            }
        }
    } else {
        let front = s.drop_last();
        assert(ascends(front)) by {
            assert forall|i: int| 0 <= i < front.len() - 1 implies precedes(
                #[trigger] front[i],
                front[i + 1],
            ) by {
                assert(precedes(s[i], s[i + 1]));
            }
        }
        lemma_inserted(front, x);
        let mid = inserted(front, x);
        let r = mid.push(s.last());
        lemma_precedes_total(s.last(), x);
        assert forall|i: int| 0 <= i < r.len() - 1 implies precedes(#[trigger] r[i], r[i + 1]) by {
            if i < mid.len() - 1 {
                assert(precedes(mid[i], mid[i + 1]));
            } else if mid.last() != x {
                assert(precedes(s[s.len() - 2], s[s.len() - 1]));
            }
        }
        assert(s =~= front.push(s.last()));
        assert(r.to_multiset() =~= s.to_multiset().insert(x));
    }
}

/// Sorted texts ascend, and are the texts that were sorted, each as often
/// as it was there.
pub proof fn lemma_sorted(s: Seq<Seq<char>>)
    ensures
        ascends(sorted(s)),
        sorted(s).len() == s.len(),
        sorted(s).to_multiset() == s.to_multiset(),
    decreases s.len(),
{
    broadcast use vstd::seq_lib::group_to_multiset_ensures;

    if s.len() > 0 {
        lemma_sorted(s.drop_last());
        lemma_inserted(sorted(s.drop_last()), s.last());
        assert(s =~= s.drop_last().push(s.last()));
    }
}

/// The texts `parts` one after the other, with `sep` between each two.
pub open spec fn joined(parts: Seq<Seq<char>>, sep: Seq<char>) -> Seq<char>
    decreases parts.len(),
{
    if parts.len() == 0 {
        Seq::empty()
    } else if parts.len() == 1 {
        parts[0]
    } else {
        joined(parts.drop_last(), sep) + sep + parts.last()
    }
}

/// The content of a list of texts.
pub open spec fn texts(v: Seq<String>) -> Seq<Seq<char>> {
    v.map_values(|s: String| s@)
}

/// The digit `d` as a text.
pub open spec fn digit(d: nat) -> Seq<char> {
    if d == 0 {
        "0"@
    } else if d == 1 {
        "1"@
    } else if d == 2 {
        "2"@
    } else if d == 3 {
        "3"@
    } else if d == 4 {
        "4"@
    } else if d == 5 {
        "5"@
    } else if d == 6 {
        "6"@
    } else if d == 7 {
        "7"@
    } else if d == 8 {
        "8"@
    } else {
        "9"@
    }
}

/// The number `n` written in decimal digits.
pub open spec fn decimal(n: nat) -> Seq<char>
    decreases n,
{
    if n < 10 {
        digit(n)
    } else {
        decimal(n / 10) + digit(n % 10)
    }
}

/// `n` blanks.
pub open spec fn blanks(n: nat) -> Seq<char>
    decreases n,
{
    if n == 0 {
        Seq::empty()
    } else {
        blanks((n - 1) as nat) + " "@
    }
}

/// Whether `a` comes before `b`, or is `b`, in the order of a dictionary.
pub fn comes_before(a: &str, b: &str) -> (r: bool)
    ensures
        r == precedes(a@, b@),
{
    let n = a.unicode_len();
    let m = b.unicode_len();
    let mut i: usize = 0;
    proof {
        assert(a@.skip(0) =~= a@);
        assert(b@.skip(0) =~= b@);
    }
    while i < n && i < m
        invariant
            i <= n,
            i <= m,
            n == a@.len(),
            m == b@.len(),
            precedes(a@, b@) == precedes(a@.skip(i as int), b@.skip(i as int)),
        decreases n - i,
    {
        let x = a.get_char(i);
        let y = b.get_char(i);
        proof {
            assert(a@.skip(i as int)[0] == x);
            assert(b@.skip(i as int)[0] == y);
            assert(a@.skip(i as int).drop_first() =~= a@.skip(i + 1));
            assert(b@.skip(i as int).drop_first() =~= b@.skip(i + 1));
        }
        if x != y {
            return (x as u32) < (y as u32);
        }
        i = i + 1;
    }
    i >= n
}

/// The texts `v` in ascending order.
pub fn sort(v: Vec<String>) -> (r: Vec<String>)
    ensures
        texts(r@) == sorted(texts(v@)),
{
    let ghost all = texts(v@);
    let mut r: Vec<String> = Vec::new();
    let mut i: usize = 0;
    assert(texts(r@) =~= sorted(all.take(0)));
    while i < v.len()
        invariant
            i <= v.len(),
            all == texts(v@),
            texts(r@) == sorted(all.take(i as int)),
        decreases v.len() - i,
    {
        let ghost before = texts(r@);
        let ghost x = all[i as int];
        assert(all.take(i + 1).drop_last() =~= all.take(i as int));
        assert(all.take(i + 1).last() == x);
        // find the place of v[i]: after the last text that comes before it
        let mut at: usize = r.len();
        proof {
            assert(before.take(at as int) =~= before);
            assert(inserted(before, x) + before.skip(at as int) =~= inserted(before, x));
        }
        while at > 0 && !comes_before(r[at - 1].as_str(), v[i].as_str())
            invariant
                at <= r.len(),
                i < v.len(),
                x == v@[i as int]@,
                before == texts(r@),
                inserted(before, x) == inserted(before.take(at as int), x) + before.skip(at as int),
            decreases at,
        {
            proof {
                let front = before.take(at as int);
                assert(front.last() == r@[at - 1]@);
                assert(front.drop_last() =~= before.take(at - 1));
                assert(inserted(front.drop_last(), x).push(front.last()) + before.skip(at as int)
                    =~= inserted(front.drop_last(), x) + before.skip(at - 1));
            }
            at = at - 1;
        }
        proof {
            let front = before.take(at as int);
            if at > 0 {
                assert(front.last() == r@[at - 1]@);
            }
            assert(inserted(front, x) =~= front.push(x));
        }
        r.insert(at, v[i].clone());
        assert(texts(r@) =~= before.take(at as int).push(x) + before.skip(at as int));
        i = i + 1;
    }
    assert(all.take(i as int) =~= all);
    r
}

/// The texts `parts` one after the other, with `sep` between each two.
pub fn join(parts: &Vec<String>, sep: &str) -> (r: String)
    ensures
        r@ == joined(texts(parts@), sep@),
{
    let ghost all = texts(parts@);
    let mut r = String::new();
    let mut i: usize = 0;
    assert(r@ =~= joined(all.take(0), sep@));
    while i < parts.len()
        invariant
            i <= parts.len(),
            all == texts(parts@),
            r@ == joined(all.take(i as int), sep@),
        decreases parts.len() - i,
    {
        assert(all.take(i + 1).drop_last() =~= all.take(i as int));
        assert(all.take(i + 1).last() == parts@[i as int]@);
        if i > 0 {
            r.append(sep);
        } else {
            assert(all.take(1)[0] == parts@[0]@);
            assert(Seq::<char>::empty() + parts@[0]@ =~= parts@[0]@);
        }
        r.append(parts[i].as_str());
        i = i + 1;
    }
    assert(all.take(i as int) =~= all);
    r
}

/// The digit `d` as a text.
fn digit_text(d: usize) -> (r: &'static str)
    requires
        d < 10,
    ensures
        r@ == digit(d as nat),
{
    if d == 0 {
        "0"
    } else if d == 1 {
        "1"
    } else if d == 2 {
        "2"
    } else if d == 3 {
        "3"
    } else if d == 4 {
        "4"
    } else if d == 5 {
        "5"
    } else if d == 6 {
        "6"
    } else if d == 7 {
        "7"
    } else if d == 8 {
        "8"
    } else {
        "9"
    }
}

/// The number `n` written in decimal digits.
pub fn decimal_text(n: usize) -> (r: String)
    ensures
        r@ == decimal(n as nat),
    decreases n,
{
    if n < 10 {
        String::from_str(digit_text(n))
    } else {
        let mut r = decimal_text(n / 10);
        r.append(digit_text(n % 10));
        r
    }
}

/// `n` blanks.
pub fn blank_text(n: usize) -> (r: String)
    ensures
        r@ == blanks(n as nat),
{
    let mut r = String::new();
    let mut i: usize = 0;
    while i < n
        invariant
            i <= n,
            r@ == blanks(i as nat),
        decreases n - i,
    {
        r.append(" ");
        i = i + 1;
    }
    r
}

} // verus!

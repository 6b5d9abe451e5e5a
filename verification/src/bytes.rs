//! Byte strings: comparison, searching, splitting and trimming.
use vstd::prelude::*;

verus! {

/// The bytes of a string literal.
pub open spec fn lit(s: &str) -> Seq<u8> {
    vstd::utf8::encode_utf8(s@)
}

/// The contents of a list of byte strings.
pub open spec fn contents(list: Seq<Vec<u8>>) -> Seq<Seq<u8>> {
    list.map_values(|item: Vec<u8>| item@)
}

/// The contents of a byte string that may be absent.
pub open spec fn contents_opt(s: Option<Vec<u8>>) -> Option<Seq<u8>> {
    match s {
        Some(v) => Some(v@),
        None => None,
    }
}

/// The contents of a borrowed byte string that may be absent.
pub open spec fn slice_opt(s: Option<&[u8]>) -> Option<Seq<u8>> {
    match s {
        Some(v) => Some(v@),
        None => None,
    }
}

/// The first position at or after `from` that holds one of `stops`, or the length of `s`.
pub open spec fn first_of(s: Seq<u8>, from: int, stops: Seq<u8>) -> int
    decreases s.len() - from,
{
    if from >= s.len() {
        s.len() as int
    } else if stops.contains(s[from]) {
        from
    } else {
        first_of(s, from + 1, stops)
    }
}

/// `s` without the run of `b` at its end.
pub open spec fn trim_end(s: Seq<u8>, b: u8) -> Seq<u8>
    decreases s.len(),
{
    if s.len() > 0 && s.last() == b {
        trim_end(s.drop_last(), b)
    } else {
        s
    }
}

/// The pieces of `s` between the occurrences of `sep`; one more than there are occurrences.
pub open spec fn split(s: Seq<u8>, sep: u8) -> Seq<Seq<u8>>
    decreases s.len(),
{
    let end = first_of(s, 0, seq![sep]);
    if end < 0 || end >= s.len() {
        seq![s]
    } else {
        seq![s.take(end)] + split(s.skip(end + 1), sep)
    }
}

/// The part of `s` in front of its first `sep`, or all of it.
pub open spec fn before(s: Seq<u8>, sep: u8) -> Seq<u8> {
    s.take(first_of(s, 0, seq![sep]))
}

/// The part of `s` behind its last slash, or all of it.
pub open spec fn base_name(s: Seq<u8>) -> Seq<u8>
    decreases s.len(),
{
    if s.len() == 0 || s.last() == 0x2f {
        Seq::empty()
    } else {
        base_name(s.drop_last()).push(s.last())
    }
}

/// The decimal digits of a number, most significant first; zero has one digit.
pub open spec fn decimal(n: nat) -> Seq<u8>
    decreases n,
{
    if n < 10 {
        seq![(0x30 + n) as u8]
    } else {
        decimal(n / 10).push((0x30 + n % 10) as u8)
    }
}

/// `first_of` is in range, stops at a stop, and skips none.
pub proof fn lemma_first_of(s: Seq<u8>, from: int, stops: Seq<u8>)
    requires
        0 <= from <= s.len(),
    ensures
        from <= first_of(s, from, stops) <= s.len(),
        first_of(s, from, stops) < s.len() ==> stops.contains(s[first_of(s, from, stops)]),
        forall|i: int| from <= i < first_of(s, from, stops) ==> !stops.contains(#[trigger] s[i]),
    decreases s.len() - from,
{
    if from < s.len() && !stops.contains(s[from]) {
        lemma_first_of(s, from + 1, stops);
    }
}

/// A position that stops the search and has no stop in front of it is what `first_of` gives.
pub proof fn lemma_first_of_is(s: Seq<u8>, from: int, stops: Seq<u8>, at: int)
    requires
        0 <= from <= at <= s.len(),
        at < s.len() ==> stops.contains(s[at]),
        forall|i: int| from <= i < at ==> !stops.contains(#[trigger] s[i]),
    ensures
        first_of(s, from, stops) == at,
    decreases at - from,
{
    if from < at {
        assert(!stops.contains(s[from]));
        lemma_first_of_is(s, from + 1, stops, at);
    }
}

/// Whether two byte strings are equal.
pub fn same(a: &[u8], b: &[u8]) -> (r: bool)
    ensures
        r == (a@ == b@),
{
    if a.len() != b.len() {
        return false;
    }
    let mut i: usize = 0;
    while i < a.len()
        invariant
            i <= a.len(),
            a.len() == b.len(),
            forall|j: int| 0 <= j < i ==> a@[j] == b@[j],
        decreases a.len() - i,
    {
        if a[i] != b[i] {
            assert(a@[i as int] != b@[i as int]);
            return false;
        }
        i += 1;
    }
    assert(a@ =~= b@);
    true
}

/// Whether `s` starts with `prefix`.
pub fn starts_with(s: &[u8], prefix: &[u8]) -> (r: bool)
    ensures
        r == prefix@.is_prefix_of(s@),
{
    if s.len() < prefix.len() {
        return false;
    }
    let head = vstd::slice::slice_subrange(s, 0, prefix.len());
    same(head, prefix)
}

/// The part of `s` from `from` up to `to`.
pub fn part(s: &[u8], from: usize, to: usize) -> (r: Vec<u8>)
    requires
        from <= to <= s@.len(),
    ensures
        r@ == s@.subrange(from as int, to as int),
{
    vstd::slice::slice_to_vec(vstd::slice::slice_subrange(s, from, to))
}

/// Whether `stops` holds `b`.
pub fn is_one_of(stops: &[u8], b: u8) -> (r: bool)
    ensures
        r == stops@.contains(b),
{
    let mut i: usize = 0;
    while i < stops.len()
        invariant
            i <= stops.len(),
            forall|j: int| 0 <= j < i ==> stops@[j] != b,
        decreases stops.len() - i,
    {
        if stops[i] == b {
            assert(stops@[i as int] == b);
            return true;
        }
        i += 1;
    }
    false
}

/// The first position at or after `from` that holds one of `stops`, or the length of `s`.
pub fn find_first(s: &[u8], from: usize, stops: &[u8]) -> (r: usize)
    requires
        from <= s@.len(),
    ensures
        r == first_of(s@, from as int, stops@),
        from <= r <= s@.len(),
{
    let mut i: usize = from;
    while i < s.len()
        invariant
            from <= i <= s@.len(),
            first_of(s@, from as int, stops@) == first_of(s@, i as int, stops@),
        decreases s.len() - i,
    {
        if is_one_of(stops, s[i]) {
            return i;
        }
        i += 1;
    }
    i
}

/// Appends `tail` to `out`.
pub fn append(out: &mut Vec<u8>, tail: &[u8])
    ensures
        final(out)@ == old(out)@ + tail@,
{
    let ghost start = out@;
    let mut i: usize = 0;
    while i < tail.len()
        invariant
            i <= tail.len(),
            out@ == start + tail@.take(i as int),
        decreases tail.len() - i,
    {
        out.push(tail[i]);
        proof {
            assert(tail@.take(i + 1) =~= tail@.take(i as int).push(tail@[i as int]));
        }
        i += 1;
    }
    proof {
        assert(tail@.take(tail@.len() as int) =~= tail@);
    }
}

/// The two byte strings one behind the other.
pub fn join(a: &[u8], b: &[u8]) -> (r: Vec<u8>)
    ensures
        r@ == a@ + b@,
{
    let mut out: Vec<u8> = vstd::slice::slice_to_vec(a);
    append(&mut out, b);
    out
}

/// `s` without the run of `b` at its end.
pub fn trimmed(s: &[u8], b: u8) -> (r: Vec<u8>)
    ensures
        r@ == trim_end(s@, b),
{
    let mut n: usize = s.len();
    proof {
        assert(s@.take(n as int) =~= s@);
    }
    while n > 0 && s[n - 1] == b
        invariant
            n <= s@.len(),
            trim_end(s@, b) == trim_end(s@.take(n as int), b),
        decreases n,
    {
        proof {
            assert(s@.take(n as int).drop_last() =~= s@.take(n - 1));
        }
        n -= 1;
    }
    part(s, 0, n)
}

/// The pieces of `s` between the occurrences of `sep`.
pub fn pieces(s: &[u8], sep: u8) -> (r: Vec<Vec<u8>>)
    ensures
        contents(r@) == split(s@, sep),
{
    let mut out: Vec<Vec<u8>> = Vec::new();
    let mut at: usize = 0;
    proof {
        assert(s@.skip(0) =~= s@);
        assert(contents(out@) + split(s@, sep) =~= split(s@, sep));
    }
    loop
        invariant
            at <= s@.len(),
            split(s@, sep) == contents(out@) + split(s@.skip(at as int), sep),
        decreases s@.len() - at,
    {
        let stop: [u8; 1] = [sep];
        let end: usize = find_first(s, at, stop.as_slice());
        proof {
            assert(stop@ =~= seq![sep]);
            lemma_first_of(s@, at as int, seq![sep]);
            lemma_first_of_is(s@.skip(at as int), 0, seq![sep], end - at);
        }
        out.push(part(s, at, end));
        proof {
            assert(s@.subrange(at as int, end as int) =~= s@.skip(at as int).take(end - at));
            if end == s@.len() {
                assert(s@.skip(at as int).take(end - at) =~= s@.skip(at as int));
            }
        }
        if end == s.len() {
            proof {
                assert(contents(out@) =~= split(s@, sep));
            }
            return out;
        }
        proof {
            assert(s@.skip(at as int).skip(end - at + 1) =~= s@.skip(end + 1));
            assert(contents(out@) + split(s@.skip(end + 1), sep) =~= split(s@, sep));
        }
        at = end + 1;
    }
}

/// Taking a run of a byte off the end of a byte string gives what stood in front of it.
pub proof fn law_trim_end(s: Seq<u8>, b: u8, n: nat)
    requires
        s.len() == 0 || s.last() != b,
    ensures
        trim_end(s + Seq::new(n, |i: int| b), b) == s,
    decreases n,
{
    let t = s + Seq::new(n, |i: int| b);
    if n == 0 {
        assert(t =~= s);
    } else {
        assert(t.drop_last() =~= s + Seq::new((n - 1) as nat, |i: int| b));
        law_trim_end(s, b, (n - 1) as nat);
    }
}

/// A byte string without the separator is one piece, and two byte strings with a separator between them
/// have the pieces of the first and then those of the second.
pub proof fn law_split(x: Seq<u8>, y: Seq<u8>, sep: u8)
    ensures
        !x.contains(sep) ==> split(x, sep) == seq![x],
        split(x + seq![sep] + y, sep) == split(x, sep) + split(y, sep),
    decreases x.len(),
{
    let stop = seq![sep];
    assert(stop[0] == sep);
    assert(forall|b: u8| stop.contains(b) <==> b == sep);
    let whole = x + seq![sep] + y;
    let end = first_of(x, 0, stop);
    lemma_first_of(x, 0, stop);
    if end < x.len() {
        assert(x.contains(sep)) by {
            assert(x[end] == sep);
        }
        assert forall|i: int| 0 <= i < end implies !stop.contains(#[trigger] whole[i]) by {
            assert(whole[i] == x[i]);
        }
        assert(whole[end] == x[end]);
        lemma_first_of_is(whole, 0, stop, end);
        assert(whole.take(end) =~= x.take(end));
        assert(whole.skip(end + 1) =~= x.skip(end + 1) + seq![sep] + y);
        law_split(x.skip(end + 1), y, sep);
        assert(split(whole, sep) =~= split(x, sep) + split(y, sep));
    } else {
        let n = x.len() as int;
        assert forall|i: int| 0 <= i < n implies !stop.contains(#[trigger] whole[i]) by {
            assert(whole[i] == x[i]);
        }
        assert(whole[n] == sep);
        lemma_first_of_is(whole, 0, stop, n);
        assert(whole.take(n) =~= x);
        assert(whole.skip(n + 1) =~= y);
    }
}

/// What stands in front of the first separator is all of a byte string without one.
pub proof fn law_before(x: Seq<u8>, y: Seq<u8>, sep: u8)
    requires
        !x.contains(sep),
    ensures
        before(x, sep) == x,
        before(x + seq![sep] + y, sep) == x,
{
    let stop = seq![sep];
    assert(stop[0] == sep);
    let whole = x + seq![sep] + y;
    assert forall|i: int| 0 <= i < x.len() implies !stop.contains(#[trigger] x[i]) by {}
    assert forall|i: int| 0 <= i < x.len() implies !stop.contains(#[trigger] whole[i]) by {
        assert(whole[i] == x[i]);
    }
    assert(whole[x.len() as int] == sep);
    lemma_first_of_is(x, 0, stop, x.len() as int);
    lemma_first_of_is(whole, 0, stop, x.len() as int);
    assert(x.take(x.len() as int) =~= x);
    assert(whole.take(x.len() as int) =~= x);
}

/// A name without a slash is its own last component, and that of every path that ends in it.
pub proof fn law_base_name(dir: Seq<u8>, name: Seq<u8>)
    requires
        !name.contains(0x2f),
    ensures
        base_name(name) == name,
        base_name(dir + seq![0x2f] + name) == name,
    decreases name.len(),
{
    let whole = dir + seq![0x2fu8] + name;
    if name.len() == 0 {
        assert(whole.last() == 0x2f);
        assert(name =~= Seq::empty());
    } else {
        let shorter = name.drop_last();
        assert(!shorter.contains(0x2f)) by {
            if shorter.contains(0x2f) {
                let i = choose|i: int| 0 <= i < shorter.len() && shorter[i] == 0x2f;
                assert(name[i] == 0x2f);
            }
        }
        law_base_name(dir, shorter);
        assert(name.last() != 0x2f) by {
            assert(name[name.len() - 1] == name.last());
        }
        assert(whole.drop_last() =~= dir + seq![0x2fu8] + shorter);
        assert(shorter.push(name.last()) =~= name);
    }
}

/// The number that a row of decimal digits stands for.
pub open spec fn digits_value(s: Seq<u8>) -> int
    decreases s.len(),
{
    if s.len() == 0 {
        0
    } else {
        10 * digits_value(s.drop_last()) + (s.last() - 0x30)
    }
}

/// The decimal digits of a number are digits, stand for it, and do not start with a zero that could be
/// left out.
pub proof fn law_decimal(n: nat)
    ensures
        digits_value(decimal(n)) == n,
        decimal(n).len() > 0,
        forall|i: int| 0 <= i < decimal(n).len() ==> 0x30 <= #[trigger] decimal(n)[i] <= 0x39,
        decimal(n).len() > 1 ==> decimal(n)[0] != 0x30,
    decreases n,
{
    if n < 10 {
        let d = decimal(n);
        assert(d.drop_last() =~= Seq::<u8>::empty());
        assert(digits_value(d.drop_last()) == 0);
    } else {
        let rest = decimal(n / 10);
        law_decimal(n / 10);
        assert(decimal(n).drop_last() =~= rest);
        if rest.len() == 1 {
            assert(rest.drop_last() =~= Seq::<u8>::empty());
            assert(digits_value(rest.drop_last()) == 0);
            assert(digits_value(rest) == rest[0] - 0x30);
        }
        assert(decimal(n)[0] == rest[0]);
    }
}

} // verus!

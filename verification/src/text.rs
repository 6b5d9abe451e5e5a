//! Text: comparison, searching and formatting over characters.
use vstd::prelude::*;
use vstd::string::StrSliceExecFns;
use vstd::string::StringExecFns;

verus! {

/// The contents of a list of strings.
pub open spec fn texts(list: Seq<String>) -> Seq<Seq<char>> {
    list.map_values(|item: String| item@)
}

/// The contents of a string that may be absent.
pub open spec fn text_opt(s: Option<String>) -> Option<Seq<char>> {
    match s {
        Some(v) => Some(v@),
        None => None,
    }
}

/// The contents of a borrowed string that may be absent.
pub open spec fn str_opt(s: Option<&str>) -> Option<Seq<char>> {
    match s {
        Some(v) => Some(v@),
        None => None,
    }
}

/// The first position of `c` at or after `from`, or the length of `s`.
pub open spec fn char_at_or_end(s: Seq<char>, from: int, c: char) -> int
    decreases s.len() - from,
{
    if from >= s.len() {
        s.len() as int
    } else if s[from] == c {
        from
    } else {
        char_at_or_end(s, from + 1, c)
    }
}

/// Whether `needle` stands somewhere in `s`.
pub open spec fn has(s: Seq<char>, needle: Seq<char>) -> bool {
    exists|i: int|
        0 <= i <= s.len() - needle.len() && #[trigger] s.subrange(i, i + needle.len()) == needle
}

/// `s` without the runs of `c` at its start and at its end.
pub open spec fn trim_both(s: Seq<char>, c: char) -> Seq<char>
    decreases s.len(),
{
    if s.len() > 0 && s[0] == c {
        trim_both(s.drop_first(), c)
    } else {
        trim_tail(s, c)
    }
}

/// `s` without the run of `c` at its end.
pub open spec fn trim_tail(s: Seq<char>, c: char) -> Seq<char>
    decreases s.len(),
{
    if s.len() > 0 && s.last() == c {
        trim_tail(s.drop_last(), c)
    } else {
        s
    }
}

/// The pieces of `s` between the occurrences of `c`; one more than there are occurrences.
pub open spec fn split_text(s: Seq<char>, c: char) -> Seq<Seq<char>>
    decreases s.len(),
{
    let end = char_at_or_end(s, 0, c);
    if end < 0 || end >= s.len() {
        seq![s]
    } else {
        seq![s.take(end)] + split_text(s.skip(end + 1), c)
    }
}

/// The texts in a row, with `sep` between each two.
pub open spec fn joined(list: Seq<Seq<char>>, sep: Seq<char>) -> Seq<char>
    decreases list.len(),
{
    if list.len() == 0 {
        Seq::empty()
    } else if list.len() == 1 {
        list[0]
    } else {
        joined(list.drop_last(), sep) + sep + list.last()
    }
}

/// One decimal digit as a character.
pub open spec fn digit_char(d: nat) -> char {
    if d == 0 {
        '0'
    } else if d == 1 {
        '1'
    } else if d == 2 {
        '2'
    } else if d == 3 {
        '3'
    } else if d == 4 {
        '4'
    } else if d == 5 {
        '5'
    } else if d == 6 {
        '6'
    } else if d == 7 {
        '7'
    } else if d == 8 {
        '8'
    } else {
        '9'
    }
}

/// A number in decimal.
pub open spec fn number_text(n: nat) -> Seq<char>
    decreases n,
{
    if n < 10 {
        seq![digit_char(n)]
    } else {
        number_text(n / 10).push(digit_char(n % 10))
    }
}

/// `char_at_or_end` is in range, stops at `c`, and skips none.
pub proof fn lemma_char_at_or_end(s: Seq<char>, from: int, c: char)
    requires
        0 <= from <= s.len(),
    ensures
        from <= char_at_or_end(s, from, c) <= s.len(),
        char_at_or_end(s, from, c) < s.len() ==> s[char_at_or_end(s, from, c)] == c,
        forall|i: int| from <= i < char_at_or_end(s, from, c) ==> #[trigger] s[i] != c,
    decreases s.len() - from,
{
    if from < s.len() && s[from] != c {
        lemma_char_at_or_end(s, from + 1, c);
    }
}

/// A position that holds `c` and has none in front of it is what `char_at_or_end` gives.
pub proof fn lemma_char_at_or_end_is(s: Seq<char>, from: int, c: char, at: int)
    requires
        0 <= from <= at <= s.len(),
        at < s.len() ==> s[at] == c,
        forall|i: int| from <= i < at ==> #[trigger] s[i] != c,
    ensures
        char_at_or_end(s, from, c) == at,
    decreases at - from,
{
    if from < at {
        assert(s[from] != c);
        lemma_char_at_or_end_is(s, from + 1, c, at);
    }
}

/// The characters of a string.
pub fn chars_of(s: &str) -> (r: Vec<char>)
    ensures
        r@ == s@,
{
    let mut out: Vec<char> = Vec::new();
    for c in it: s.chars()
        invariant
            out@ == it.seq().take(it.index()),
    {
        out.push(c);
    }
    out
}

/// Whether two strings are equal.
pub fn same_text(a: &str, b: &str) -> (r: bool)
    ensures
        r == (a@ == b@),
{
    let x = chars_of(a);
    let y = chars_of(b);
    if x.len() != y.len() {
        return false;
    }
    let mut i: usize = 0;
    while i < x.len()
        invariant
            i <= x.len(),
            x.len() == y.len(),
            x@ == a@,
            y@ == b@,
            forall|j: int| 0 <= j < i ==> x@[j] == y@[j],
        decreases x.len() - i,
    {
        if x[i] != y[i] {
            assert(a@[i as int] != b@[i as int]);
            return false;
        }
        i += 1;
    }
    assert(a@ =~= b@);
    true
}

/// The characters of `s` from `from` up to `to`.
pub fn piece(s: &str, from: usize, to: usize) -> (r: String)
    requires
        from <= to <= s@.len(),
    ensures
        r@ == s@.subrange(from as int, to as int),
{
    s.substring_char(from, to).to_owned()
}

/// Whether `s` starts with `prefix`.
pub fn text_starts(s: &str, prefix: &str) -> (r: bool)
    ensures
        r == prefix@.is_prefix_of(s@),
{
    let n: usize = prefix.unicode_len();
    if s.unicode_len() < n {
        return false;
    }
    same_text(s.substring_char(0, n), prefix)
}

/// Whether `needle` stands somewhere in `s`.
pub fn text_has(s: &str, needle: &str) -> (r: bool)
    ensures
        r == has(s@, needle@),
{
    let len: usize = s.unicode_len();
    let n: usize = needle.unicode_len();
    if len < n {
        return false;
    }
    let mut i: usize = 0;
    while i <= len - n
        invariant
            n <= len,
            len == s@.len(),
            n == needle@.len(),
            i <= len - n + 1,
            forall|j: int| 0 <= j < i ==> #[trigger] s@.subrange(j, j + n) != needle@,
        decreases len - n + 1 - i,
    {
        if same_text(s.substring_char(i, i + n), needle) {
            assert(s@.subrange(i as int, i + needle@.len()) == needle@);
            return true;
        }
        if i == len - n {
            proof {
                assert forall|j: int| 0 <= j <= s@.len() - needle@.len() implies
                    #[trigger] s@.subrange(j, j + needle@.len()) != needle@ by {
                    assert(s@.subrange(j, j + n) != needle@);
                }
            }
            return false;
        }
        i += 1;
    }
    false
}

/// The first position of `c` at or after `from`, or the number of characters.
pub fn find_char(s: &[char], from: usize, c: char) -> (r: usize)
    requires
        from <= s@.len(),
    ensures
        r == char_at_or_end(s@, from as int, c),
        from <= r <= s@.len(),
{
    let mut i: usize = from;
    while i < s.len()
        invariant
            from <= i <= s@.len(),
            char_at_or_end(s@, from as int, c) == char_at_or_end(s@, i as int, c),
        decreases s.len() - i,
    {
        if s[i] == c {
            return i;
        }
        i += 1;
    }
    i
}

/// `s` without the runs of `c` at its start and at its end.
pub fn trimmed_text(s: &str, c: char) -> (r: String)
    ensures
        r@ == trim_both(s@, c),
{
    let all = chars_of(s);
    let mut from: usize = 0;
    let mut to: usize = all.len();
    proof {
        assert(s@.subrange(0, s@.len() as int) =~= s@);
    }
    while from < to && all[from] == c
        invariant
            all@ == s@,
            from <= to,
            to == s@.len(),
            trim_both(s@, c) == trim_both(s@.subrange(from as int, to as int), c),
        decreases to - from,
    {
        proof {
            assert(s@.subrange(from as int, to as int).drop_first() =~= s@.subrange(
                from + 1,
                to as int,
            ));
        }
        from += 1;
    }
    while to > from && all[to - 1] == c
        invariant
            all@ == s@,
            from <= to <= s@.len(),
            trim_both(s@, c) == trim_tail(s@.subrange(from as int, to as int), c),
        decreases to - from,
    {
        proof {
            assert(s@.subrange(from as int, to as int).drop_last() =~= s@.subrange(
                from as int,
                to - 1,
            ));
        }
        to -= 1;
    }
    piece(s, from, to)
}

/// The pieces of `s` between the occurrences of `c`.
pub fn pieces_of(s: &str, c: char) -> (r: Vec<String>)
    ensures
        texts(r@) == split_text(s@, c),
{
    let all = chars_of(s);
    let mut out: Vec<String> = Vec::new();
    let mut at: usize = 0;
    proof {
        assert(s@.skip(0) =~= s@);
        assert(texts(out@) + split_text(s@, c) =~= split_text(s@, c));
    }
    loop
        invariant
            all@ == s@,
            at <= s@.len(),
            split_text(s@, c) == texts(out@) + split_text(s@.skip(at as int), c),
        decreases s@.len() - at,
    {
        let end: usize = find_char(all.as_slice(), at, c);
        proof {
            lemma_char_at_or_end(s@, at as int, c);
            lemma_char_at_or_end_is(s@.skip(at as int), 0, c, end - at);
        }
        out.push(piece(s, at, end));
        proof {
            assert(s@.subrange(at as int, end as int) =~= s@.skip(at as int).take(end - at));
            if end == s@.len() {
                assert(s@.skip(at as int).take(end - at) =~= s@.skip(at as int));
            }
        }
        if end == all.len() {
            proof {
                assert(texts(out@) =~= split_text(s@, c));
            }
            return out;
        }
        proof {
            assert(s@.skip(at as int).skip(end - at + 1) =~= s@.skip(end + 1));
            assert(texts(out@) + split_text(s@.skip(end + 1), c) =~= split_text(s@, c));
        }
        at = end + 1;
    }
}

/// The two texts one behind the other.
pub fn add_text(a: &str, b: &str) -> (r: String)
    ensures
        r@ == a@ + b@,
{
    a.to_owned().concat(b)
}

/// The three texts one behind the other.
pub fn add_texts(a: &str, b: &str, c: &str) -> (r: String)
    ensures
        r@ == a@ + b@ + c@,
{
    a.to_owned().concat(b).concat(c)
}

/// The texts in a row, with `sep` between each two.
pub fn join_texts(list: &[String], sep: &str) -> (r: String)
    ensures
        r@ == joined(texts(list@), sep@),
{
    let ghost all = texts(list@);
    let mut out: String = String::new();
    let mut i: usize = 0;
    proof {
        assert(out@ =~= joined(all.take(0), sep@));
    }
    while i < list.len()
        invariant
            i <= list@.len(),
            all == texts(list@),
            out@ == joined(all.take(i as int), sep@),
        decreases list.len() - i,
    {
        proof {
            assert(all.take(i + 1).drop_last() =~= all.take(i as int));
            assert(all.take(i + 1).last() == list@[i as int]@);
        }
        if i > 0 {
            out = out.concat(sep).concat(list[i].as_str());
        } else {
            out = list[i].clone();
        }
        i += 1;
    }
    proof {
        assert(all.take(list@.len() as int) =~= all);
    }
    out
}

/// The texts of a list from the given position on.
pub fn texts_from(list: &[String], from: usize) -> (r: Vec<String>)
    requires
        from <= list@.len(),
    ensures
        texts(r@) == texts(list@).skip(from as int),
{
    let ghost all = texts(list@);
    let mut out: Vec<String> = Vec::new();
    let mut i: usize = from;
    proof {
        assert(texts(out@) =~= all.subrange(from as int, from as int));
    }
    while i < list.len()
        invariant
            from <= i <= list@.len(),
            all == texts(list@),
            texts(out@) == all.subrange(from as int, i as int),
        decreases list.len() - i,
    {
        let ghost done = texts(out@);
        let item = list[i].clone();
        out.push(item);
        proof {
            assert(texts(out@) =~= done.push(item@));
            assert(all.subrange(from as int, i + 1) =~= done.push(item@));
        }
        i += 1;
    }
    proof {
        assert(all.subrange(from as int, list@.len() as int) =~= all.skip(from as int));
    }
    out
}

/// One decimal digit as text.
fn digit_text(d: u32) -> (r: &'static str)
    requires
        d < 10,
    ensures
        r@ == seq![digit_char(d as nat)],
{
    proof {
        reveal_strlit("0");
        reveal_strlit("1");
        reveal_strlit("2");
        reveal_strlit("3");
        reveal_strlit("4");
        reveal_strlit("5");
        reveal_strlit("6");
        reveal_strlit("7");
        reveal_strlit("8");
        reveal_strlit("9");
    }
    let r: &'static str = match d {
        0 => "0",
        1 => "1",
        2 => "2",
        3 => "3",
        4 => "4",
        5 => "5",
        6 => "6",
        7 => "7",
        8 => "8",
        _ => "9",
    };
    proof {
        assert(r@ =~= seq![digit_char(d as nat)]);
    }
    r
}

/// A number in decimal.
pub fn number(n: u32) -> (r: String)
    ensures
        r@ == number_text(n as nat),
    decreases n,
{
    if n < 10 {
        digit_text(n).to_owned()
    } else {
        let r = number(n / 10).concat(digit_text(n % 10));
        proof {
            assert(r@ =~= number_text((n / 10) as nat).push(digit_char((n % 10) as nat)));
        }
        r
    }
}

/// Taking runs of a character off both ends of a text gives what stood between them.
pub proof fn law_trim_both(s: Seq<char>, c: char, front: nat, back: nat)
    requires
        s.len() > 0 ==> s[0] != c && s.last() != c,
    ensures
        trim_both(Seq::new(front, |i: int| c) + s + Seq::new(back, |i: int| c), c) == s,
        trim_tail(s + Seq::new(back, |i: int| c), c) == s,
    decreases front + back,
{
    let tail = s + Seq::new(back, |i: int| c);
    let t = Seq::new(front, |i: int| c) + s + Seq::new(back, |i: int| c);
    lemma_trim_tail(s, c, back);
    if front > 0 {
        assert(t[0] == c);
        assert(t.drop_first() =~= Seq::new((front - 1) as nat, |i: int| c) + s + Seq::new(
            back,
            |i: int| c,
        ));
        law_trim_both(s, c, (front - 1) as nat, back);
    } else {
        assert(t =~= tail);
        if s.len() > 0 {
            assert(t[0] == s[0]);
        } else {
            if back > 0 {
                assert(t.drop_first() =~= Seq::new(front, |i: int| c) + s + Seq::new(
                    (back - 1) as nat,
                    |i: int| c,
                ));
                law_trim_both(s, c, front, (back - 1) as nat);
            }
        }
    }
}

proof fn lemma_trim_tail(s: Seq<char>, c: char, n: nat)
    requires
        s.len() > 0 ==> s.last() != c,
    ensures
        trim_tail(s + Seq::new(n, |i: int| c), c) == s,
    decreases n,
{
    let t = s + Seq::new(n, |i: int| c);
    if n == 0 {
        assert(t =~= s);
    } else {
        assert(t.drop_last() =~= s + Seq::new((n - 1) as nat, |i: int| c));
        lemma_trim_tail(s, c, (n - 1) as nat);
    }
}

/// A text without the separator is one piece, and two texts with a separator between them have the pieces
/// of the first and then those of the second.
pub proof fn law_split_text(x: Seq<char>, y: Seq<char>, c: char)
    ensures
        !x.contains(c) ==> split_text(x, c) == seq![x],
        split_text(x + seq![c] + y, c) == split_text(x, c) + split_text(y, c),
    decreases x.len(),
{
    let whole = x + seq![c] + y;
    let end = char_at_or_end(x, 0, c);
    lemma_char_at_or_end(x, 0, c);
    if end < x.len() {
        assert(x.contains(c)) by {
            assert(x[end] == c);
        }
        assert forall|i: int| 0 <= i < end implies #[trigger] whole[i] != c by {
            assert(whole[i] == x[i]);
        }
        assert(whole[end] == x[end]);
        lemma_char_at_or_end_is(whole, 0, c, end);
        assert(whole.take(end) =~= x.take(end));
        assert(whole.skip(end + 1) =~= x.skip(end + 1) + seq![c] + y);
        law_split_text(x.skip(end + 1), y, c);
        assert(split_text(whole, c) =~= split_text(x, c) + split_text(y, c));
    } else {
        let n = x.len() as int;
        assert forall|i: int| 0 <= i < n implies #[trigger] whole[i] != c by {
            assert(whole[i] == x[i]);
        }
        assert(whole[n] == c);
        lemma_char_at_or_end_is(whole, 0, c, n);
        assert(whole.take(n) =~= x);
        assert(whole.skip(n + 1) =~= y);
    }
}

/// Two rows of texts that are joined are joined with one separator between them, and a single text stays.
pub proof fn law_joined(x: Seq<Seq<char>>, y: Seq<Seq<char>>, sep: Seq<char>)
    ensures
        joined(seq![], sep) == Seq::<char>::empty(),
        x.len() == 1 ==> joined(x, sep) == x[0],
        x.len() > 0 && y.len() > 0 ==> joined(x + y, sep) == joined(x, sep) + sep + joined(y, sep),
    decreases y.len(),
{
    if x.len() > 0 && y.len() > 0 {
        let all = x + y;
        assert(all.drop_last() =~= x + y.drop_last());
        assert(all.last() == y.last());
        if y.len() == 1 {
            assert(x + y.drop_last() =~= x);
        } else {
            law_joined(x, y.drop_last(), sep);
            assert(joined(all, sep) =~= joined(x, sep) + sep + joined(y, sep));
        }
    }
}

/// The number that a row of decimal digits stands for.
pub open spec fn number_value(s: Seq<char>) -> int
    decreases s.len(),
{
    if s.len() == 0 {
        0
    } else {
        10 * number_value(s.drop_last()) + (s.last() as int - '0' as int)
    }
}

/// A number in decimal consists of digits, stands for the number, and does not start with a zero that
/// could be left out.
pub proof fn law_number_text(n: nat)
    ensures
        number_value(number_text(n)) == n,
        number_text(n).len() > 0,
        forall|i: int|
            0 <= i < number_text(n).len() ==> '0' as int <= (#[trigger] number_text(n)[i]) as int
                <= '9' as int,
        number_text(n).len() > 1 ==> number_text(n)[0] != '0',
    decreases n,
{
    if n < 10 {
        let d = number_text(n);
        assert(d.drop_last() =~= Seq::<char>::empty());
        assert(number_value(d.drop_last()) == 0);
    } else {
        let rest = number_text(n / 10);
        law_number_text(n / 10);
        assert(number_text(n).drop_last() =~= rest);
        if rest.len() == 1 {
            assert(rest.drop_last() =~= Seq::<char>::empty());
            assert(number_value(rest.drop_last()) == 0);
            assert(number_value(rest) == rest[0] as int - '0' as int);
        }
        assert(number_text(n)[0] == rest[0]);
    }
}

} // verus!

//! Text helpers for the address-record format: comma-joined entries, and the
//! decimal form of a port number.

use vstd::prelude::*;

verus! {

/// The delimiter between the entries of an address record.
pub open spec fn delimiter() -> char {
    ','
}

/// The views of a sequence of strings.
pub open spec fn texts(v: Seq<String>) -> Seq<Seq<char>> {
    v.map_values(|s: String| s@)
}

/// Whether `s` can stand as one entry of a record: non-empty, without the delimiter.
pub open spec fn is_entry(s: Seq<char>) -> bool {
    &&& s.len() > 0
    &&& forall|i: int| 0 <= i < s.len() ==> s[i] != delimiter()
}

/// Whether `s` holds no delimiter.
pub open spec fn no_delimiter(s: Seq<char>) -> bool {
    forall|i: int| 0 <= i < s.len() ==> s[i] != delimiter()
}

/// The entries joined by the delimiter.
pub open spec fn join_entries(xs: Seq<Seq<char>>) -> Seq<char>
    decreases xs.len(),
{
    if xs.len() == 0 {
        Seq::empty()
    } else if xs.len() == 1 {
        xs[0]
    } else {
        join_entries(xs.drop_last()) + seq![delimiter()] + xs.last()
    }
}

/// A left-to-right scan of `s`: the non-empty pieces closed by a delimiter so
/// far, and the piece still open.
pub open spec fn scan(s: Seq<char>) -> (Seq<Seq<char>>, Seq<char>)
    decreases s.len(),
{
    if s.len() == 0 {
        (Seq::empty(), Seq::empty())
    } else {
        let (done, open) = scan(s.drop_last());
        if s.last() == delimiter() {
            (if open.len() > 0 { done.push(open) } else { done }, Seq::empty())
        } else {
            (done, open.push(s.last()))
        }
    }
}

/// The non-empty pieces of `s` between delimiters, in order.
pub open spec fn split_entries(s: Seq<char>) -> Seq<Seq<char>> {
    let (done, open) = scan(s);
    if open.len() > 0 {
        done.push(open)
    } else {
        done
    }
}

/// Appending text without a delimiter only extends the open piece.
proof fn lemma_scan_plain(a: Seq<char>, b: Seq<char>)
    requires
        no_delimiter(b),
    ensures
        scan(a + b) == (scan(a).0, scan(a).1 + b),
    decreases b.len(),
{
    if b.len() == 0 {
        assert(a + b =~= a);
        assert(scan(a).1 + b =~= scan(a).1);
    } else {
        let b0 = b.drop_last();
        lemma_scan_plain(a, b0);
        assert((a + b).drop_last() =~= a + b0);
        assert((a + b).last() == b.last());
        assert(scan(a).1 + b0 + seq![b.last()] =~= scan(a).1 + b);
        assert((scan(a).1 + b0).push(b.last()) =~= scan(a).1 + b);
    }
}

/// Scanning joined entries closes all of them but the last.
proof fn lemma_scan_join(xs: Seq<Seq<char>>)
    requires
        xs.len() > 0,
        forall|k: int| 0 <= k < xs.len() ==> is_entry(#[trigger] xs[k]),
    ensures
        scan(join_entries(xs)) == (xs.drop_last(), xs.last()),
    decreases xs.len(),
{
    if xs.len() == 1 {
        lemma_scan_plain(Seq::empty(), xs[0]);
        assert(Seq::<char>::empty() + xs[0] =~= xs[0]);
        assert(xs.drop_last() =~= Seq::<Seq<char>>::empty());
        assert(scan(Seq::<char>::empty()) == (Seq::<Seq<char>>::empty(), Seq::<char>::empty()));
        assert(Seq::<char>::empty() + xs[0] =~= xs[0]);
    } else {
        let ys = xs.drop_last();
        assert forall|k: int| 0 <= k < ys.len() implies is_entry(#[trigger] ys[k]) by {
            assert(ys[k] == xs[k]);
        }
        lemma_scan_join(ys);
        let head = join_entries(ys) + seq![delimiter()];
        assert(head.drop_last() =~= join_entries(ys));
        assert(head.last() == delimiter());
        assert(ys.last() == xs[xs.len() - 2]);
        assert(ys.drop_last().push(ys.last()) =~= ys);
        assert(scan(head) == (ys, Seq::<char>::empty()));
        lemma_scan_plain(head, xs.last());
        assert(Seq::<char>::empty() + xs.last() =~= xs.last());
    }
}

/// Splitting joined entries gives the entries back, in order.
pub proof fn lemma_split_join(xs: Seq<Seq<char>>)
    requires
        forall|k: int| 0 <= k < xs.len() ==> is_entry(#[trigger] xs[k]),
    ensures
        split_entries(join_entries(xs)) == xs,
{
    if xs.len() == 0 {
        assert(split_entries(Seq::empty()) =~= xs);
    } else {
        lemma_scan_join(xs);
        assert(xs.drop_last().push(xs.last()) =~= xs);
    }
}

/// The decimal digit `d`.
pub open spec fn digit(d: nat) -> char {
    if d == 0 { '0' }
    else if d == 1 { '1' }
    else if d == 2 { '2' }
    else if d == 3 { '3' }
    else if d == 4 { '4' }
    else if d == 5 { '5' }
    else if d == 6 { '6' }
    else if d == 7 { '7' }
    else if d == 8 { '8' }
    else { '9' }
}

/// The decimal numeral of `n`, without leading zeros.
pub open spec fn decimal(n: nat) -> Seq<char>
    decreases n,
{
    if n < 10 {
        seq![digit(n)]
    } else {
        decimal(n / 10).push(digit(n % 10))
    }
}

fn digit_text(d: u16) -> (r: &'static str)
    requires
        d < 10,
    ensures
        r@ == seq![digit(d as nat)],
{
    proof {
        reveal_strlit("0");
        reveal_strlit("1");
        reveal_strlit("2");
        reveal_strlit("3");
        reveal_strlit("4");
        reveal_strlit("5");
        reveal_strlit("6");
        reveal_strlit("7");
        reveal_strlit("8");
        reveal_strlit("9");
    }
    if d == 0 { "0" }
    else if d == 1 { "1" }
    else if d == 2 { "2" }
    else if d == 3 { "3" }
    else if d == 4 { "4" }
    else if d == 5 { "5" }
    else if d == 6 { "6" }
    else if d == 7 { "7" }
    else if d == 8 { "8" }
    else { "9" }
}

/// The decimal numeral of a port number.
pub fn decimal_text(n: u16) -> (r: String)
    ensures
        r@ == decimal(n as nat),
    decreases n,
{
    if n < 10 {
        String::from_str(digit_text(n))
    } else {
        let mut s = decimal_text(n / 10);
        s.append(digit_text(n % 10));
        s
    }
}

/// Joins the entries with the delimiter.
pub fn join_text(xs: &Vec<String>) -> (r: String)
    ensures
        r@ == join_entries(texts(xs@)),
{
    let mut r = String::new();
    let mut i: usize = 0;
    while i < xs.len()
        invariant
            i <= xs.len(),
            r@ == join_entries(texts(xs@.subrange(0, i as int))),
        decreases xs.len() - i,
    {
        proof {
            let pre = xs@.subrange(0, i as int);
            let post = xs@.subrange(0, i as int + 1);
            assert(texts(post).drop_last() =~= texts(pre));
            assert(texts(post).last() == xs@[i as int]@);
        }
        if i > 0 {
            proof {
                reveal_strlit(",");
            }
            r.append(",");
        }
        r.append(xs[i].as_str());
        proof {
            let pre = xs@.subrange(0, i as int);
            let post = xs@.subrange(0, i as int + 1);
            if i > 0 {
                assert(texts(post).len() > 1);
            }
            if i == 0 {
                assert(texts(post).len() == 1);
                assert(Seq::<char>::empty() + xs@[0]@ =~= xs@[0]@);
            }
        }
        i = i + 1;
    }
    assert(xs@.subrange(0, xs.len() as int) =~= xs@);
    r
}

/// Splits `s` into its non-empty pieces between delimiters.
pub fn split_text(s: &str) -> (r: Vec<String>)
    ensures
        texts(r@) == split_entries(s@),
{
    let n = s.unicode_len();
    let mut done: Vec<String> = Vec::new();
    let mut start: usize = 0;
    let mut i: usize = 0;
    while i < n
        invariant
            n == s@.len(),
            start <= i <= n,
            scan(s@.subrange(0, i as int)) == (texts(done@), s@.subrange(start as int, i as int)),
        decreases n - i,
    {
        let c = s.get_char(i);
        let ghost pre = s@.subrange(0, i as int);
        let ghost post = s@.subrange(0, i as int + 1);
        assert(post.drop_last() =~= pre);
        assert(post.last() == c);
        if c == ',' {
            if start < i {
                let piece = String::from_str(s.substring_char(start, i));
                let ghost before = done@;
                done.push(piece);
                assert(texts(done@) =~= texts(before).push(piece@));
            }
            start = i + 1;
        } else {
            assert(s@.subrange(start as int, i as int + 1) =~= s@.subrange(start as int, i as int).push(c));
        }
        i = i + 1;
    }
    assert(s@.subrange(0, n as int) =~= s@);
    if start < n {
        let piece = String::from_str(s.substring_char(start, n));
        let ghost before = done@;
        done.push(piece);
        assert(texts(done@) =~= texts(before).push(piece@));
    }
    done
}

/// Whether the two texts are the same.
pub fn same_text(a: &str, b: &str) -> (r: bool)
    ensures
        r == (a@ == b@),
{
    let n = a.unicode_len();
    if n != b.unicode_len() {
        return false;
    }
    let mut i: usize = 0;
    while i < n
        invariant
            n == a@.len(),
            n == b@.len(),
            i <= n,
            forall|k: int| 0 <= k < i ==> a@[k] == b@[k],
        decreases n - i,
    {
        if a.get_char(i) != b.get_char(i) {
            return false;
        }
        i = i + 1;
    }
    assert(a@ =~= b@);
    true
}

} // verus!

use vstd::prelude::*;

verus! {

/// The pieces of `s` between occurrences of the delimiter `d`, in order.
/// There is always one more piece than there are delimiters, so the empty
/// text has one empty piece.
pub open spec fn split(s: Seq<char>, d: char) -> Seq<Seq<char>>
    decreases s.len(),
{
    if s.len() == 0 {
        seq![Seq::empty()]
    } else {
        let p = split(s.drop_last(), d);
        if s.last() == d {
            p.push(Seq::empty())
        } else {
            p.update(p.len() - 1, p.last().push(s.last()))
        }
    }
}

/// The views of a sequence of strings.
pub open spec fn views(v: Seq<String>) -> Seq<Seq<char>> {
    v.map_values(|x: String| x@)
}

pub proof fn lemma_split_nonempty(s: Seq<char>, d: char)
    ensures
        split(s, d).len() >= 1,
    decreases s.len(),
{
    if s.len() > 0 {
        lemma_split_nonempty(s.drop_last(), d);
    }
}

/// A text without the delimiter is one piece.
pub proof fn lemma_split_without_delimiter(s: Seq<char>, d: char)
    requires
        !s.contains(d),
    ensures
        split(s, d) == seq![s],
    decreases s.len(),
{
    if s.len() == 0 {
        assert(s =~= Seq::empty());
    } else {
        let t = s.drop_last();
        assert(!t.contains(d)) by {
            if t.contains(d) {
                let k = choose|k: int| 0 <= k < t.len() && t[k] == d;
                assert(s[k] == d);
            }
        }
        lemma_split_without_delimiter(t, d);
        assert(s.last() != d) by {
            assert(s[s.len() - 1] == s.last());
        }
        assert(t.push(s.last()) =~= s);
        assert(split(s, d) =~= seq![s]);
    }
}

/// Splitting around one delimiter splits each side on its own.
pub proof fn lemma_split_concat(x: Seq<char>, y: Seq<char>, d: char)
    ensures
        split(x + seq![d] + y, d) == split(x, d) + split(y, d),
    decreases y.len(),
{
    let z = x + seq![d] + y;
    if y.len() == 0 {
        assert(z.drop_last() =~= x);
        assert(split(z, d) =~= split(x, d) + split(y, d));
    } else {
        let y0 = y.drop_last();
        assert(z.drop_last() =~= x + seq![d] + y0);
        assert(z.last() == y.last());
        lemma_split_concat(x, y0, d);
        lemma_split_nonempty(y0, d);
        assert(split(z, d) =~= split(x, d) + split(y, d));
    }
}

/// Whether two texts are equal, char for char.
pub fn same_text(a: &str, b: &str) -> (r: bool)
    ensures
        r == (a@ == b@),
{
    let n = a.unicode_len();
    if n != b.unicode_len() {
        return false;
    }
    let mut i: usize = 0;
    while i < n
        invariant
            n == a@.len(),
            n == b@.len(),
            i <= n,
            a@.subrange(0, i as int) == b@.subrange(0, i as int),
        decreases n - i,
    {
        if a.get_char(i) != b.get_char(i) {
            assert(a@[i as int] != b@[i as int]);
            return false;
        }
        assert(a@.subrange(0, i + 1) == a@.subrange(0, i as int).push(a@[i as int]));
        assert(b@.subrange(0, i + 1) == b@.subrange(0, i as int).push(b@[i as int]));
        i = i + 1;
    }
    assert(a@ == a@.subrange(0, n as int));
    assert(b@ == b@.subrange(0, n as int));
    true
}

/// Splits `s` at every occurrence of `d`.
pub fn split_on(s: &str, d: char) -> (r: Vec<String>)
    ensures
        views(r@) == split(s@, d),
{
    let n = s.unicode_len();
    let mut pieces: Vec<String> = Vec::new();
    let mut start: usize = 0;
    let mut i: usize = 0;
    assert(s@.subrange(0, 0) =~= Seq::<char>::empty());
    assert(views(pieces@).push(s@.subrange(0, 0)) =~= split(s@.subrange(0, 0), d));
    while i < n
        invariant
            n == s@.len(),
            start <= i <= n,
            views(pieces@).push(s@.subrange(start as int, i as int)) == split(
                s@.subrange(0, i as int),
                d,
            ),
        decreases n - i,
    {
        let c = s.get_char(i);
        let ghost before = s@.subrange(0, i as int);
        let ghost after = s@.subrange(0, i + 1);
        assert(after.drop_last() =~= before);
        assert(after.last() == c);
        if c == d {
            let piece = String::from_str(s.substring_char(start, i));
            let ghost old_pieces = pieces@;
            pieces.push(piece);
            assert(views(pieces@) =~= views(old_pieces).push(s@.subrange(start as int, i as int)));
            start = i + 1;
            assert(s@.subrange(start as int, i + 1) =~= Seq::<char>::empty());
            assert(views(pieces@).push(s@.subrange(start as int, i + 1)) =~= split(after, d));
        } else {
            assert(s@.subrange(start as int, i + 1) =~= s@.subrange(start as int, i as int).push(c));
            assert(views(pieces@).push(s@.subrange(start as int, i + 1)) =~= split(after, d));
        }
        i = i + 1;
    }
    let last = String::from_str(s.substring_char(start, n));
    let ghost old_pieces = pieces@;
    pieces.push(last);
    assert(views(pieces@) =~= views(old_pieces).push(s@.subrange(start as int, n as int)));
    assert(s@.subrange(0, n as int) =~= s@);
    assert(views(pieces@) =~= split(s@, d));
    pieces
}

} // verus!

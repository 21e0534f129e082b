//! Category lists written as comma-separated text.
use vstd::prelude::*;
use crate::registry::strings_view;

verus! {

/// The comma-separated fields of `s`, empty ones included.
pub open spec fn fields(s: Seq<char>) -> Seq<Seq<char>>
    decreases s.len(),
{
    if s.len() == 0 {
        seq![Seq::empty()]
    } else {
        let f = fields(s.drop_last());
        if s.last() == ',' {
            f.push(Seq::empty())
        } else {
            f.update(f.len() - 1, f.last().push(s.last()))
        }
    }
}

/// The fields of `ss` that are not empty, in their order.
pub open spec fn non_empty(ss: Seq<Seq<char>>) -> Seq<Seq<char>>
    decreases ss.len(),
{
    if ss.len() == 0 {
        ss
    } else if ss.last().len() > 0 {
        non_empty(ss.drop_last()).push(ss.last())
    } else {
        non_empty(ss.drop_last())
    }
}

/// The categories that the text `s` names: its comma-separated fields, empty
/// fields dropped.
pub open spec fn tags_of(s: Seq<char>) -> Seq<Seq<char>> {
    non_empty(fields(s))
}

/// The categories named by the comma-separated text `s`; empty fields are dropped.
pub fn parse_categories(s: &str) -> (r: Vec<String>)
    ensures
        strings_view(r@) == tags_of(s@),
{
    let n = s.unicode_len();
    let mut out: Vec<String> = Vec::new();
    let mut start: usize = 0;
    let mut i: usize = 0;
    proof {
        assert(s@.take(0) =~= Seq::<char>::empty());
    }
    while i < n
        invariant
            n == s@.len(),
            start <= i <= n,
            fields(s@.take(i as int)).len() >= 1,
            fields(s@.take(i as int)).last() == s@.subrange(start as int, i as int),
            strings_view(out@) == non_empty(fields(s@.take(i as int)).drop_last()),
        decreases n - i,
    {
        let ghost f = fields(s@.take(i as int));
        let c = s.get_char(i);
        assert(s@.take(i + 1).drop_last() =~= s@.take(i as int));
        assert(s@.take(i + 1).last() == c);
        if c == ',' {
            assert(fields(s@.take(i + 1)) == f.push(Seq::empty()));
            assert(fields(s@.take(i + 1)).drop_last() =~= f);
            if start < i {
                let field = s.substring_char(start, i).to_owned();
                out.push(field);
                assert(strings_view(out@) =~= non_empty(f.drop_last()).push(f.last()));
            } else {
                assert(f.last() =~= Seq::<char>::empty());
            }
            start = i + 1;
            assert(fields(s@.take(i + 1)).last() =~= s@.subrange(start as int, i + 1));
        } else {
            assert(fields(s@.take(i + 1)).drop_last() =~= f.drop_last());
            assert(fields(s@.take(i + 1)).last() =~= s@.subrange(start as int, i + 1));
        }
        i = i + 1;
    }
    assert(s@.take(n as int) =~= s@);
    let ghost f = fields(s@);
    if start < n {
        let field = s.substring_char(start, n).to_owned();
        out.push(field);
        assert(strings_view(out@) =~= non_empty(f.drop_last()).push(f.last()));
    } else {
        assert(f.last() =~= Seq::<char>::empty());
    }
    assert(f.drop_last().push(f.last()) =~= f);
    out
}

} // verus!

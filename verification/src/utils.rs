//! Small text helpers used by listings.

use vstd::prelude::*;

verus! {

/// The images of a run of strings.
pub open spec fn lines_view(s: Seq<String>) -> Seq<Seq<char>> {
    s.map_values(|x: String| x@)
}

/// The separator drawn before each description line after the first.
pub open spec fn line_sep() -> Seq<char> {
    "\n* "@
}

/// The lines after the first, each behind a separator.
pub open spec fn spec_join_rest(ss: Seq<Seq<char>>) -> Seq<char>
    decreases ss.len(),
{
    if ss.len() == 0 {
        Seq::<char>::empty()
    } else {
        line_sep() + ss[0] + spec_join_rest(ss.skip(1))
    }
}

/// All lines joined: the first as it is, each later one behind a separator.
pub open spec fn spec_display_vec_string(ss: Seq<Seq<char>>) -> Seq<char> {
    if ss.len() == 0 {
        Seq::<char>::empty()
    } else {
        ss[0] + spec_join_rest(ss.skip(1))
    }
}

/// One more line appends a separator and the line.
proof fn lemma_join_rest_push(ss: Seq<Seq<char>>, t: Seq<char>)
    ensures
        spec_join_rest(ss.push(t)) == spec_join_rest(ss) + (line_sep() + t),
    decreases ss.len(),
{
    assert(ss.push(t)[0] == if ss.len() == 0 { t } else { ss[0] });
    assert(spec_join_rest(ss.push(t)) == line_sep() + ss.push(t)[0] + spec_join_rest(
        ss.push(t).skip(1),
    ));
    if ss.len() == 0 {
        assert(ss.push(t).skip(1) =~= Seq::<Seq<char>>::empty());
        assert(spec_join_rest(ss.push(t)) =~= spec_join_rest(ss) + (line_sep() + t));
    } else {
        assert(ss.push(t).skip(1) =~= ss.skip(1).push(t));
        lemma_join_rest_push(ss.skip(1), t);
        assert(spec_join_rest(ss.push(t)) =~= spec_join_rest(ss) + (line_sep() + t));
    }
}

/// Joins description lines for display, later lines each on their own
/// bullet line.
pub fn display_vec_string(v: &[String]) -> (r: String)
    ensures
        r@ == spec_display_vec_string(lines_view(v@)),
{
    let ghost ss = lines_view(v@);
    let mut out = String::new();
    if v.len() == 0 {
        return out;
    }
    out.append(v[0].as_str());
    let mut i: usize = 1;
    proof {
        assert(ss.subrange(1, 1) =~= Seq::<Seq<char>>::empty());
    }
    while i < v.len()
        invariant
            1 <= i <= v.len(),
            ss == lines_view(v@),
            out@ == ss[0] + spec_join_rest(ss.subrange(1, i as int)),
        decreases v.len() - i,
    {
        out.append("\n* ");
        out.append(v[i].as_str());
        proof {
            lemma_join_rest_push(ss.subrange(1, i as int), ss[i as int]);
            assert(ss.subrange(1, i + 1) =~= ss.subrange(1, i as int).push(ss[i as int]));
            assert(out@ =~= ss[0] + spec_join_rest(ss.subrange(1, i + 1)));
        }
        i += 1;
    }
    proof {
        assert(ss.subrange(1, ss.len() as int) =~= ss.skip(1));
    }
    out
}

} // verus!

//! Joining tokens with a delimiter, and the round trip back: splitting the
//! joined string on the delimiter recovers exactly the tokens.

use vstd::prelude::*;
use vstd::string::StringExecFns;

verus! {

/// The tokens joined in order, with the delimiter `d` between consecutive
/// tokens.
pub open spec fn join_with(tokens: Seq<Seq<char>>, d: Seq<char>) -> Seq<char>
    decreases tokens.len(),
{
    if tokens.len() == 0 {
        Seq::empty()
    } else if tokens.len() == 1 {
        tokens[0]
    } else {
        tokens[0] + d + join_with(tokens.drop_first(), d)
    }
}

/// Splitting `s` on the delimiter `d`: the segments between leftmost,
/// non-overlapping occurrences of `d`.  With an empty delimiter the string
/// is returned whole.
pub open spec fn split_on(s: Seq<char>, d: Seq<char>) -> Seq<Seq<char>>
    decreases s.len(),
{
    if d.len() == 0 {
        seq![s]
    } else if s.len() >= d.len() && s.take(d.len() as int) == d {
        seq![Seq::<char>::empty()] + split_on(s.skip(d.len() as int), d)
    } else if s.len() == 0 {
        seq![s]
    } else {
        let rest = split_on(s.skip(1), d);
        seq![seq![s[0]] + rest[0]] + rest.skip(1)
    }
}

/// `t` holds no character of the delimiter `d`.
pub open spec fn avoids(t: Seq<char>, d: Seq<char>) -> bool {
    forall|i: int, j: int| 0 <= i < t.len() && 0 <= j < d.len() ==> t[i] != d[j]
}

/// A string that holds no character of `d` splits into itself alone.
pub proof fn lemma_split_on_avoids(t: Seq<char>, d: Seq<char>)
    requires
        d.len() > 0,
        avoids(t, d),
    ensures
        split_on(t, d) == seq![t],
    decreases t.len(),
{
    if t.len() == 0 {
    } else {
        if t.len() >= d.len() && t.take(d.len() as int) == d {
            assert(t.take(d.len() as int)[0] == t[0]);
            assert(false);
        }
        let tail = t.skip(1);
        assert forall|i: int, j: int| 0 <= i < tail.len() && 0 <= j < d.len() implies tail[i]
            != d[j] by {
            assert(tail[i] == t[i + 1]);
        }
        lemma_split_on_avoids(tail, d);
        let rest = split_on(tail, d);
        assert(rest[0] == tail);
        assert(rest.skip(1) =~= Seq::<Seq<char>>::empty());
        assert(seq![t[0]] + tail =~= t);
        assert(split_on(t, d) =~= seq![t]);
    }
}

/// Splitting `t + d + r` peels off `t` as the first segment, provided `t`
/// holds no character of `d`.
pub proof fn lemma_split_on_boundary(t: Seq<char>, d: Seq<char>, r: Seq<char>)
    requires
        d.len() > 0,
        avoids(t, d),
    ensures
        split_on(t + d + r, d) == seq![t] + split_on(r, d),
    decreases t.len(),
{
    let s = t + d + r;
    if t.len() == 0 {
        assert(s =~= d + r);
        assert(s.take(d.len() as int) =~= d);
        assert(s.skip(d.len() as int) =~= r);
        assert(t =~= Seq::<char>::empty());
        assert(split_on(s, d) =~= seq![t] + split_on(r, d));
    } else {
        assert(s[0] == t[0]);
        if s.len() >= d.len() && s.take(d.len() as int) == d {
            assert(s.take(d.len() as int)[0] == s[0]);
            assert(false);
        }
        let tail = t.skip(1);
        assert forall|i: int, j: int| 0 <= i < tail.len() && 0 <= j < d.len() implies tail[i]
            != d[j] by {
            assert(tail[i] == t[i + 1]);
        }
        assert(s.skip(1) =~= tail + d + r);
        lemma_split_on_boundary(tail, d, r);
        let rest = split_on(s.skip(1), d);
        assert(rest == seq![tail] + split_on(r, d));
        assert(rest[0] == tail);
        assert(rest.skip(1) =~= split_on(r, d));
        assert(seq![s[0]] + tail =~= t);
        assert(split_on(s, d) =~= seq![t] + split_on(r, d));
    }
}

/// Law: splitting a joined passphrase on its delimiter yields exactly the
/// joined tokens — no more, no fewer — provided the delimiter is non-empty
/// and no token holds a character of the delimiter.  In particular the
/// number of segments equals the number of tokens, and when every token is
/// non-empty, so is every segment.
pub proof fn lemma_split_join_round_trip(tokens: Seq<Seq<char>>, d: Seq<char>)
    requires
        tokens.len() > 0,
        d.len() > 0,
        forall|k: int| 0 <= k < tokens.len() ==> avoids(#[trigger] tokens[k], d),
    ensures
        split_on(join_with(tokens, d), d) == tokens,
    decreases tokens.len(),
{
    if tokens.len() == 1 {
        lemma_split_on_avoids(tokens[0], d);
        assert(seq![tokens[0]] =~= tokens);
    } else {
        let rest = tokens.drop_first();
        assert forall|k: int| 0 <= k < rest.len() implies avoids(#[trigger] rest[k], d) by {
            assert(rest[k] == tokens[k + 1]);
        }
        lemma_split_join_round_trip(rest, d);
        lemma_split_on_boundary(tokens[0], d, join_with(rest, d));
        assert(seq![tokens[0]] + rest =~= tokens);
    }
}

/// Appending one more token extends the join on the right.
pub proof fn lemma_join_with_push(tokens: Seq<Seq<char>>, t: Seq<char>, d: Seq<char>)
    ensures
        tokens.len() == 0 ==> join_with(tokens.push(t), d) == t,
        tokens.len() > 0 ==> join_with(tokens.push(t), d) == join_with(tokens, d) + d + t,
    decreases tokens.len(),
{
    let p = tokens.push(t);
    if tokens.len() == 0 {
        assert(p[0] == t);
    } else if tokens.len() == 1 {
        assert(p[0] == tokens[0]);
        assert(p.drop_first() =~= seq![t]);
        assert(join_with(p.drop_first(), d) == t);
    } else {
        assert(p[0] == tokens[0]);
        assert(p.drop_first() =~= tokens.drop_first().push(t));
        lemma_join_with_push(tokens.drop_first(), t, d);
        assert(tokens[0] + d + (join_with(tokens.drop_first(), d) + d + t) =~= (tokens[0] + d
            + join_with(tokens.drop_first(), d)) + d + t);
    }
}

/// Join the tokens with the delimiter between consecutive tokens.
pub fn join(tokens: &Vec<String>, delimiter: &str) -> (r: String)
    ensures
        r@ == join_with(tokens.deep_view(), delimiter@),
{
    let ghost dv = tokens.deep_view();
    let mut out = String::new();
    let n = tokens.len();
    let mut i: usize = 0;
    while i < n
        invariant
            i <= n == tokens@.len(),
            dv == tokens.deep_view(),
            out@ == join_with(dv.take(i as int), delimiter@),
        decreases n - i,
    {
        proof {
            assert(dv.take(i + 1).drop_last() =~= dv.take(i as int));
            assert(dv.take(i as int).push(dv[i as int]) =~= dv.take(i + 1));
            lemma_join_with_push(dv.take(i as int), dv[i as int], delimiter@);
        }
        if i > 0 {
            out.append(delimiter);
        }
        let ghost mid = out@;
        out.append(tokens[i].as_str());
        proof {
            assert(tokens@[i as int]@ == dv[i as int]);
            if i == 0 {
                assert(out@ =~= dv[0]);
                assert(dv.take(1)[0] == dv[0]);
            } else {
                assert(mid =~= join_with(dv.take(i as int), delimiter@) + delimiter@);
                assert(out@ =~= join_with(dv.take(i as int), delimiter@) + delimiter@
                    + dv[i as int]);
            }
        }
        i = i + 1;
    }
    proof {
        assert(dv.take(n as int) =~= dv);
    }
    out
}

} // verus!

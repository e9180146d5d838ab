//! Unicode-aware capitalization of a word: the first character is mapped
//! to its uppercase form, every later character to its lowercase form.
//! The result is deterministic in the word alone.

use vstd::prelude::*;

verus! {

/// The Unicode uppercase mapping of `c`, as `char::to_uppercase` yields it.
pub uninterp spec fn upper_of(c: char) -> Seq<char>;

/// The Unicode lowercase mapping of `c`, as `char::to_lowercase` yields it.
pub uninterp spec fn lower_of(c: char) -> Seq<char>;

/// Relies on char::to_uppercase: it yields the uppercase mapping of the
/// character, one or more characters, depending on that character alone.
#[verifier::external_body]
fn char_to_upper(c: char) -> (r: Vec<char>)
    ensures
        r@ == upper_of(c),
        r@.len() > 0,
{
    c.to_uppercase().collect()
}

/// Relies on char::to_lowercase: it yields the lowercase mapping of the
/// character, one or more characters, depending on that character alone.
#[verifier::external_body]
fn char_to_lower(c: char) -> (r: Vec<char>)
    ensures
        r@ == lower_of(c),
        r@.len() > 0,
{
    c.to_lowercase().collect()
}

/// Relies on String::push: appends exactly the one character `c`.
#[verifier::external_body]
pub(crate) fn push_char(s: &mut String, c: char)
    ensures
        final(s)@ == old(s)@.push(c),
{
    s.push(c);
}

/// The lowercase mappings of all characters of `s`, concatenated in order.
pub open spec fn lower_all(s: Seq<char>) -> Seq<char>
    decreases s.len(),
{
    if s.len() == 0 {
        Seq::empty()
    } else {
        lower_of(s[0]) + lower_all(s.drop_first())
    }
}

/// What capitalizing a word produces: the uppercase mapping of its first
/// character, followed by the lowercase mappings of all later characters.
/// An empty word stays empty.
pub open spec fn capitalized(w: Seq<char>) -> Seq<char> {
    if w.len() == 0 {
        w
    } else {
        upper_of(w[0]) + lower_all(w.drop_first())
    }
}

/// Lowercasing one more character extends the concatenation on the right.
pub proof fn lemma_lower_all_push(s: Seq<char>, c: char)
    ensures
        lower_all(s.push(c)) == lower_all(s) + lower_of(c),
    decreases s.len(),
{
    let p = s.push(c);
    if s.len() == 0 {
        assert(p.drop_first() =~= Seq::<char>::empty());
        assert(p[0] == c);
        assert(lower_all(Seq::<char>::empty()) == Seq::<char>::empty());
        assert(lower_all(p) == lower_of(c) + Seq::<char>::empty());
        assert(lower_all(s) == Seq::<char>::empty());
        assert(lower_of(c) + Seq::<char>::empty() =~= Seq::<char>::empty() + lower_of(c));
    } else {
        assert(p[0] == s[0]);
        assert(p.drop_first() =~= s.drop_first().push(c));
        lemma_lower_all_push(s.drop_first(), c);
        assert(lower_of(s[0]) + (lower_all(s.drop_first()) + lower_of(c)) =~= (lower_of(s[0])
            + lower_all(s.drop_first())) + lower_of(c));
    }
}

/// Lowercasing distributes over concatenation.
pub proof fn lemma_lower_all_concat(a: Seq<char>, b: Seq<char>)
    ensures
        lower_all(a + b) == lower_all(a) + lower_all(b),
    decreases a.len(),
{
    if a.len() == 0 {
        assert(a + b =~= b);
        assert(lower_all(a) + lower_all(b) =~= lower_all(b));
    } else {
        assert((a + b)[0] == a[0]);
        assert((a + b).drop_first() =~= a.drop_first() + b);
        lemma_lower_all_concat(a.drop_first(), b);
        assert(lower_of(a[0]) + (lower_all(a.drop_first()) + lower_all(b)) =~= (lower_of(a[0])
            + lower_all(a.drop_first())) + lower_all(b));
    }
}

/// Lowercasing is idempotent over characters whose own lowercase mappings
/// lower to themselves.
pub proof fn lemma_lower_all_idempotent(s: Seq<char>)
    requires
        forall|i: int| 0 <= i < s.len() ==> lower_all(#[trigger] lower_of(s[i])) == lower_of(s[i]),
    ensures
        lower_all(lower_all(s)) == lower_all(s),
    decreases s.len(),
{
    if s.len() > 0 {
        let rest = s.drop_first();
        assert forall|i: int| 0 <= i < rest.len() implies lower_all(#[trigger] lower_of(rest[i]))
            == lower_of(rest[i]) by {
            assert(rest[i] == s[i + 1]);
        }
        lemma_lower_all_idempotent(rest);
        lemma_lower_all_concat(lower_of(s[0]), lower_all(rest));
    }
}

/// Law: capitalizing twice is the same as capitalizing once, provided the
/// word's own case mappings are stable: the uppercase mapping of the first
/// character is a single character that is its own uppercase mapping, and
/// the lowercase mapping of every later character lowers to itself.  (A
/// word such as one starting with a character whose uppercase mapping has
/// several characters falls outside this law.)
pub proof fn lemma_capitalized_idempotent(w: Seq<char>)
    requires
        w.len() > 0 ==> upper_of(w[0]).len() == 1,
        w.len() > 0 ==> upper_of(upper_of(w[0])[0]) == upper_of(w[0]),
        forall|i: int| 1 <= i < w.len() ==> lower_all(#[trigger] lower_of(w[i])) == lower_of(w[i]),
    ensures
        capitalized(capitalized(w)) == capitalized(w),
{
    if w.len() > 0 {
        let u = upper_of(w[0]);
        let rest = w.drop_first();
        let l = lower_all(rest);
        assert(capitalized(w) == u + l);
        assert((u + l).len() > 0);
        assert((u + l)[0] == u[0]);
        assert((u + l).drop_first() =~= l);
        assert forall|i: int| 0 <= i < rest.len() implies lower_all(#[trigger] lower_of(rest[i]))
            == lower_of(rest[i]) by {
            assert(rest[i] == w[i + 1]);
        }
        lemma_lower_all_idempotent(rest);
        assert(capitalized(capitalized(w)) == upper_of(u[0]) + lower_all(l));
    }
}

/// Capitalize a word: its first character is replaced by its Unicode
/// uppercase mapping, every later character by its lowercase mapping.
pub fn to_capitalized(word: &str) -> (r: String)
    ensures
        r@ == capitalized(word@),
{
    let n = word.unicode_len();
    let mut out = String::new();
    if n == 0 {
        return out;
    }
    let ups = char_to_upper(word.get_char(0));
    let ghost u = upper_of(word@[0]);
    let mut j: usize = 0;
    while j < ups.len()
        invariant
            j <= ups@.len(),
            ups@ == u,
            out@ == u.take(j as int),
        decreases ups@.len() - j,
    {
        push_char(&mut out, ups[j]);
        proof {
            assert(u.take(j as int).push(u[j as int]) =~= u.take(j + 1));
        }
        j = j + 1;
    }
    proof {
        assert(u.take(u.len() as int) =~= u);
        assert(word@.subrange(1, 1) =~= Seq::<char>::empty());
        assert(u + lower_all(word@.subrange(1, 1)) =~= u);
    }
    let mut i: usize = 1;
    while i < n
        invariant
            1 <= i <= n == word@.len(),
            out@ == u + lower_all(word@.subrange(1, i as int)),
            u == upper_of(word@[0]),
        decreases n - i,
    {
        let lows = char_to_lower(word.get_char(i));
        let ghost done = u + lower_all(word@.subrange(1, i as int));
        let ghost low = lower_of(word@[i as int]);
        let mut j: usize = 0;
        while j < lows.len()
            invariant
                j <= lows@.len(),
                lows@ == low,
                out@ == done + low.take(j as int),
            decreases lows@.len() - j,
        {
            push_char(&mut out, lows[j]);
            proof {
                assert(low.take(j as int).push(low[j as int]) =~= low.take(j + 1));
                assert((done + low.take(j as int)).push(low[j as int]) =~= done + low.take(j + 1));
            }
            j = j + 1;
        }
        proof {
            assert(low.take(low.len() as int) =~= low);
            lemma_lower_all_push(word@.subrange(1, i as int), word@[i as int]);
            assert(word@.subrange(1, i as int).push(word@[i as int]) =~= word@.subrange(1, i + 1));
            assert(done + low =~= u + lower_all(word@.subrange(1, i + 1)));
        }
        i = i + 1;
    }
    proof {
        assert(word@.subrange(1, n as int) =~= word@.drop_first());
    }
    out
}

} // verus!

//! How white space falls off texts, and how lists of words come apart.
use crate::advanced::{kept_pieces, keywords, pieces};
use crate::text::{is_space, trim_back, trim_front, trimmed};
use vstd::prelude::*;

verus! {

/// Whether a text is nothing but white space.
pub open spec fn all_space(s: Seq<char>) -> bool {
    forall|k: int| 0 <= k < s.len() ==> is_space(#[trigger] s[k])
}

proof fn lemma_front_falls_off(a: Seq<char>, s: Seq<char>)
    requires
        all_space(a),
        s.len() > 0 ==> !is_space(s[0]),
    ensures
        trim_front(a + s) == s,
    decreases a.len(),
{
    let t = a + s;
    if a.len() > 0 {
        assert(t[0] == a[0]);
        assert(t.drop_first() =~= a.drop_first() + s);
        assert forall|k: int| 0 <= k < a.drop_first().len() implies is_space(
            #[trigger] a.drop_first()[k],
        ) by {
            assert(a.drop_first()[k] == a[k + 1]);
        }
        lemma_front_falls_off(a.drop_first(), s);
    } else {
        assert(t =~= s);
    }
}

proof fn lemma_back_falls_off(s: Seq<char>, b: Seq<char>)
    requires
        all_space(b),
        s.len() > 0 ==> !is_space(s.last()),
    ensures
        trim_back(s + b) == s,
    decreases b.len(),
{
    let t = s + b;
    if b.len() > 0 {
        assert(t.last() == b.last());
        assert(is_space(b[b.len() - 1]));
        assert(t.drop_last() =~= s + b.drop_last());
        assert forall|k: int| 0 <= k < b.drop_last().len() implies is_space(
            #[trigger] b.drop_last()[k],
        ) by {
            assert(b.drop_last()[k] == b[k]);
        }
        lemma_back_falls_off(s, b.drop_last());
    } else {
        assert(t =~= s);
    }
}

/// White space at both ends falls off, all of it, and nothing else.
pub proof fn lemma_white_space_falls_off(a: Seq<char>, s: Seq<char>, b: Seq<char>)
    requires
        all_space(a),
        all_space(b),
        s.len() > 0 ==> !is_space(s[0]) && !is_space(s.last()),
    ensures
        trimmed(a + s + b) == s,
{
    if s.len() > 0 {
        assert(a + s + b =~= a + (s + b));
        assert((s + b)[0] == s[0]);
        lemma_front_falls_off(a, s + b);
        lemma_back_falls_off(s, b);
    } else {
        let ab = a + b;
        assert(a + s + b =~= ab + s);
        assert forall|k: int| 0 <= k < ab.len() implies is_space(#[trigger] ab[k]) by {
            if k < a.len() {
                assert(ab[k] == a[k]);
            } else {
                assert(ab[k] == b[k - a.len()]);
            }
        }
        lemma_front_falls_off(ab, s);
        assert(trim_back(s) == s);
    }
}

// ── Lists of words ───────────────────────────────────────────────────
/// Whether a character parts words.
pub open spec fn parts_words(c: char) -> bool {
    c == ',' || c == '\n'
}

proof fn lemma_some_pieces(s: Seq<char>)
    ensures
        pieces(s).len() > 0,
    decreases s.len(),
{
    if s.len() > 0 {
        lemma_some_pieces(s.drop_last());
    }
}

proof fn lemma_pieces_apart(a: Seq<char>, c: char, b: Seq<char>)
    requires
        parts_words(c),
    ensures
        pieces(a + seq![c] + b) == pieces(a) + pieces(b),
    decreases b.len(),
{
    let s = a + seq![c] + b;
    lemma_some_pieces(a);
    lemma_some_pieces(b);
    if b.len() == 0 {
        assert(s.last() == c);
        assert(s.drop_last() =~= a);
        assert(pieces(s) =~= pieces(a) + pieces(b));
    } else {
        assert(s.last() == b.last());
        assert(s.drop_last() =~= a + seq![c] + b.drop_last());
        lemma_pieces_apart(a, c, b.drop_last());
        lemma_some_pieces(b.drop_last());
        let p = pieces(b.drop_last());
        assert((pieces(a) + p).last() == p.last());
        assert((pieces(a) + p).drop_last() =~= pieces(a) + p.drop_last());
        assert(pieces(s) =~= pieces(a) + pieces(b));
    }
}

proof fn lemma_kept_apart(a: Seq<Seq<char>>, b: Seq<Seq<char>>)
    ensures
        kept_pieces(a + b) == kept_pieces(a) + kept_pieces(b),
    decreases b.len(),
{
    let s = a + b;
    if b.len() == 0 {
        assert(s =~= a);
        assert(kept_pieces(a) + kept_pieces(b) =~= kept_pieces(a));
    } else {
        assert(s.last() == b.last());
        assert(s.drop_last() =~= a + b.drop_last());
        lemma_kept_apart(a, b.drop_last());
        assert(kept_pieces(s) =~= kept_pieces(a) + kept_pieces(b));
    }
}

proof fn lemma_one_piece(s: Seq<char>)
    requires
        forall|k: int| 0 <= k < s.len() ==> !parts_words(#[trigger] s[k]),
    ensures
        pieces(s) == seq![s],
    decreases s.len(),
{
    if s.len() > 0 {
        assert(!parts_words(s[s.len() - 1]));
        let r = s.drop_last();
        assert forall|k: int| 0 <= k < r.len() implies !parts_words(#[trigger] r[k]) by {
            assert(r[k] == s[k]);
        }
        lemma_one_piece(r);
        assert(r.push(s.last()) =~= s);
        assert(pieces(s) =~= seq![s]);
    } else {
        assert(s =~= Seq::<char>::empty());
        assert(pieces(s) =~= seq![s]);
    }
}

/// The words of a list are those before a comma or a line break, and then those
/// behind it.
pub proof fn lemma_words_come_apart(a: Seq<char>, c: char, b: Seq<char>)
    requires
        parts_words(c),
    ensures
        keywords(a + seq![c] + b) == keywords(a) + keywords(b),
{
    lemma_pieces_apart(a, c, b);
    lemma_kept_apart(pieces(a), pieces(b));
}

/// What holds no comma and no line break is one word, without the white space
/// around it, or none where there is nothing else.
pub proof fn lemma_lone_word(s: Seq<char>)
    requires
        forall|k: int| 0 <= k < s.len() ==> !parts_words(#[trigger] s[k]),
    ensures
        keywords(s) == (if trimmed(s).len() == 0 {
            Seq::<Seq<char>>::empty()
        } else {
            seq![trimmed(s)]
        }),
{
    lemma_one_piece(s);
    let p = seq![s];
    assert(p.drop_last() =~= Seq::<Seq<char>>::empty());
    reveal_with_fuel(kept_pieces, 2);
    assert(keywords(s) =~= (if trimmed(s).len() == 0 {
        Seq::<Seq<char>>::empty()
    } else {
        seq![trimmed(s)]
    }));
}

} // verus!

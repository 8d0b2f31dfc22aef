//! Splitting a character sequence at a delimiter, with a verified
//! executable counterpart over `&str`.

use vstd::prelude::*;

verus! {

/// The views of a sequence of owned strings.
pub open spec fn views(v: Seq<String>) -> Seq<Seq<char>> {
    v.map_values(|s: String| s@)
}

/// The parts of `s` between occurrences of the delimiter `d`.
///
/// There is always at least one part; `k` delimiters give `k + 1` parts, and
/// consecutive delimiters enclose an empty part.
pub open spec fn split_char(s: Seq<char>, d: char) -> Seq<Seq<char>>
    decreases s.len(),
{
    if s.len() == 0 {
        seq![Seq::<char>::empty()]
    } else if s[0] == d {
        seq![Seq::<char>::empty()] + split_char(s.drop_first(), d)
    } else {
        let rest = split_char(s.drop_first(), d);
        seq![seq![s[0]] + rest[0]] + rest.drop_first()
    }
}

pub proof fn lemma_split_char_len(s: Seq<char>, d: char)
    ensures
        split_char(s, d).len() >= 1,
    decreases s.len(),
{
    if s.len() > 0 {
        lemma_split_char_len(s.drop_first(), d);
    }
}

/// How the split of `s` grows when one character is appended: a delimiter
/// starts a fresh empty part, any other character extends the last part.
pub proof fn lemma_split_char_push(s: Seq<char>, d: char, c: char)
    ensures
        split_char(s.push(c), d) == (if c == d {
            split_char(s, d).push(Seq::<char>::empty())
        } else {
            split_char(s, d).update(
                split_char(s, d).len() - 1,
                split_char(s, d).last().push(c),
            )
        }),
    decreases s.len(),
{
    lemma_split_char_len(s, d);
    let r = split_char(s, d);
    if s.len() == 0 {
        assert(s.push(c)[0] == c);
        assert(s.push(c).drop_first() =~= Seq::<char>::empty());
        if c == d {
            assert(split_char(Seq::<char>::empty(), d) =~~= seq![Seq::<char>::empty()]);
            assert(split_char(s.push(c), d) =~~= r.push(Seq::<char>::empty()));
        } else {
            assert(seq![c] + split_char(Seq::<char>::empty(), d)[0] =~= Seq::<char>::empty().push(
                c,
            ));
            assert(split_char(s.push(c), d) =~~= r.update(r.len() - 1, r.last().push(c)));
        }
    } else {
        let t = s.drop_first();
        assert(s.push(c)[0] == s[0]);
        assert(s.push(c).drop_first() =~= t.push(c));
        lemma_split_char_push(t, d, c);
        lemma_split_char_len(t, d);
        let rt = split_char(t, d);
        if s[0] == d {
            // r == [[]] + rt
            if c == d {
                assert(split_char(s.push(c), d) =~~= r.push(Seq::<char>::empty()));
            } else {
                assert(r.last() == rt.last());
                assert(split_char(s.push(c), d) == seq![Seq::<char>::empty()] + rt.update(
                    rt.len() - 1,
                    rt.last().push(c),
                ));
                assert(split_char(s.push(c), d) =~~= r.update(r.len() - 1, r.last().push(c)));
            }
        } else {
            // r == [[s[0]] + rt[0]] + rt.drop_first()
            if c == d {
                let rtp = rt.push(Seq::<char>::empty());
                assert(rtp[0] == rt[0]);
                assert(rtp.drop_first() =~~= rt.drop_first().push(Seq::<char>::empty()));
                assert(split_char(s.push(c), d) == seq![seq![s[0]] + rtp[0]] + rtp.drop_first());
                assert(split_char(s.push(c), d) =~~= r.push(Seq::<char>::empty()));
            } else {
                let rtu = rt.update(rt.len() - 1, rt.last().push(c));
                assert(split_char(s.push(c), d) == seq![seq![s[0]] + rtu[0]] + rtu.drop_first());
                if rt.len() == 1 {
                    assert(rtu[0] == rt[0].push(c));
                    assert(rtu.drop_first() =~= rt.drop_first());
                    assert(r.last() == seq![s[0]] + rt[0]);
                    assert(seq![s[0]] + rt[0].push(c) =~= (seq![s[0]] + rt[0]).push(c));
                    assert(split_char(s.push(c), d) =~~= r.update(r.len() - 1, r.last().push(c)));
                } else {
                    assert(rtu[0] == rt[0]);
                    assert(rtu.drop_first() =~~= rt.drop_first().update(
                        rt.len() - 2,
                        rt.last().push(c),
                    ));
                    assert(r.last() == rt.last());
                    assert(split_char(s.push(c), d) =~~= r.update(r.len() - 1, r.last().push(c)));
                }
            }
        }
    }
}

/// Split `s` at every occurrence of `d`, returning owned parts.
pub fn split_str(s: &str, d: char) -> (parts: Vec<String>)
    ensures
        views(parts@) == split_char(s@, d),
        parts@.len() >= 1,
{
    let len = s.unicode_len();
    let mut done: Vec<String> = Vec::new();
    let mut start: usize = 0;
    let mut i: usize = 0;
    proof {
        assert(s@.subrange(0, 0) =~= Seq::<char>::empty());
        assert(split_char(s@.subrange(0, 0), d) =~~= views(done@).push(s@.subrange(0, 0)));
    }
    while i < len
        invariant
            len == s@.len(),
            0 <= start <= i <= len,
            split_char(s@.subrange(0, i as int), d) == views(done@).push(
                s@.subrange(start as int, i as int),
            ),
        decreases len - i,
    {
        let c = s.get_char(i);
        proof {
            let prefix = s@.subrange(0, i as int);
            assert(s@.subrange(0, i + 1) =~= prefix.push(s@[i as int]));
            lemma_split_char_push(prefix, d, s@[i as int]);
        }
        if c == d {
            let piece = s.substring_char(start, i).to_owned();
            proof {
                let old_parts = views(done@).push(s@.subrange(start as int, i as int));
                assert(views(done@.push(piece)).push(s@.subrange(i + 1, i + 1)) =~~= old_parts.push(
                    Seq::<char>::empty(),
                ));
            }
            done.push(piece);
            start = i + 1;
        } else {
            proof {
                let old_parts = views(done@).push(s@.subrange(start as int, i as int));
                assert(s@.subrange(start as int, i + 1) =~= s@.subrange(start as int, i as int).push(
                    s@[i as int],
                ));
                assert(views(done@).push(s@.subrange(start as int, i + 1)) =~~= old_parts.update(
                    old_parts.len() - 1,
                    old_parts.last().push(s@[i as int]),
                ));
            }
        }
        i = i + 1;
    }
    let last_piece = s.substring_char(start, len).to_owned();
    proof {
        assert(s@.subrange(0, len as int) =~= s@);
        assert(views(done@.push(last_piece)) =~~= views(done@).push(
            s@.subrange(start as int, len as int),
        ));
    }
    done.push(last_piece);
    proof {
        lemma_split_char_len(s@, d);
    }
    done
}

/// The parts joined back with the delimiter between them.
pub open spec fn join_char(parts: Seq<Seq<char>>, d: char) -> Seq<char>
    decreases parts.len(),
{
    if parts.len() == 0 {
        Seq::empty()
    } else if parts.len() == 1 {
        parts[0]
    } else {
        parts[0] + seq![d] + join_char(parts.drop_first(), d)
    }
}

/// Splitting and rejoining gives the text back: the parts are exactly the
/// stretches of text between the delimiters.
pub proof fn lemma_split_join(s: Seq<char>, d: char)
    ensures
        join_char(split_char(s, d), d) == s,
    decreases s.len(),
{
    lemma_split_char_len(s, d);
    if s.len() == 0 {
        assert(join_char(split_char(s, d), d) =~= s);
    } else {
        let t = s.drop_first();
        lemma_split_join(t, d);
        lemma_split_char_len(t, d);
        let rest = split_char(t, d);
        if s[0] == d {
            let parts = seq![Seq::<char>::empty()] + rest;
            assert(parts.len() >= 2);
            assert(parts[0] =~= Seq::<char>::empty());
            assert(parts.drop_first() =~= rest);
            assert(join_char(parts, d) =~= parts[0] + seq![d] + join_char(rest, d));
            assert(join_char(parts, d) =~= s);
        } else {
            let parts = seq![seq![s[0]] + rest[0]] + rest.drop_first();
            assert(parts[0] == seq![s[0]] + rest[0]);
            if rest.len() == 1 {
                assert(parts.len() == 1);
                assert(join_char(rest, d) == rest[0]);
                assert(join_char(parts, d) =~= s);
            } else {
                assert(parts.drop_first() =~= rest.drop_first());
                assert(join_char(parts, d) == parts[0] + seq![d] + join_char(
                    rest.drop_first(),
                    d,
                ));
                assert(join_char(rest, d) == rest[0] + seq![d] + join_char(rest.drop_first(), d));
                assert(parts[0] + seq![d] + join_char(rest.drop_first(), d) =~= seq![s[0]]
                    + join_char(rest, d));
                assert(seq![s[0]] + t =~= s);
                assert(join_char(parts, d) =~= s);
            }
        }
    }
}

/// An empty part appended at the end joins as one more trailing delimiter.
pub proof fn lemma_join_push_empty(parts: Seq<Seq<char>>, d: char)
    requires
        parts.len() >= 1,
    ensures
        join_char(parts.push(Seq::<char>::empty()), d) == join_char(parts, d) + seq![d],
    decreases parts.len(),
{
    let p = parts.push(Seq::<char>::empty());
    assert(p[0] == parts[0]);
    if parts.len() == 1 {
        assert(p.drop_first() =~= seq![Seq::<char>::empty()]);
        assert(join_char(p.drop_first(), d) =~= Seq::<char>::empty());
        assert(join_char(p, d) =~= join_char(parts, d) + seq![d]);
    } else {
        assert(p.drop_first() =~= parts.drop_first().push(Seq::<char>::empty()));
        lemma_join_push_empty(parts.drop_first(), d);
        assert(join_char(p, d) =~= join_char(parts, d) + seq![d]);
    }
}

} // verus!

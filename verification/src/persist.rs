//! The persisted part of the application state and its codec.
//!
//! The blob is a sequence of self-delimiting optional fields: `n` for an
//! absent value, or `s`, the value's length in decimal digits, `;`, and the
//! value's characters. Decoding is total: a malformed field and everything
//! after it fall back to the absent default, so a blob written by an older
//! version that persisted fewer fields still decodes, with the newer fields
//! at their defaults.

use vstd::prelude::*;

use crate::chars::{
    all_digits, char_is_digit, digits_of, digits_val, format_usize, is_digit,
    lemma_digits_of_val, lemma_digits_of_wf,
};
use crate::numeric::parse_digits;
use crate::state::AppState;

verus! {

/// The persisted pair as plain values.
pub struct PersistedModel {
    pub opened_file: Option<Seq<char>>,
    pub selected_column: Option<Seq<char>>,
}

/// The persisted part of the application state.
pub struct PersistedState {
    pub opened_file: Option<String>,
    pub selected_column: Option<String>,
}

/// The view of an optional owned string.
pub open spec fn opt_view(o: Option<String>) -> Option<Seq<char>> {
    match o {
        None => None,
        Some(s) => Some(s@),
    }
}

impl PersistedState {
    /// The persisted pair this state denotes.
    pub open spec fn model(self) -> PersistedModel {
        PersistedModel {
            opened_file: opt_view(self.opened_file),
            selected_column: opt_view(self.selected_column),
        }
    }
}

/// The encoding of one optional field.
pub open spec fn spec_enc_field(v: Option<Seq<char>>) -> Seq<char> {
    match v {
        None => seq!['n'],
        Some(p) => seq!['s'] + digits_of(p.len()) + seq![';'] + p,
    }
}

/// The encoding of the persisted pair: both fields, in order.
pub open spec fn spec_encode(m: PersistedModel) -> Seq<char> {
    spec_enc_field(m.opened_file) + spec_enc_field(m.selected_column)
}

/// The length of the longest digit prefix of `s`.
pub open spec fn digit_prefix_len(s: Seq<char>) -> int
    decreases s.len(),
{
    if s.len() == 0 {
        0
    } else if !is_digit(s[0]) {
        0
    } else {
        1 + digit_prefix_len(s.drop_first())
    }
}

/// Decode one field: the value, the remaining text, and whether the field
/// was well formed. A malformed field consumes nothing.
pub open spec fn spec_dec_field(s: Seq<char>) -> (Option<Seq<char>>, Seq<char>, bool) {
    if s.len() == 0 {
        (None, s, false)
    } else if s[0] == 'n' {
        (None, s.drop_first(), true)
    } else if s[0] == 's' {
        let rest = s.drop_first();
        let k = digit_prefix_len(rest);
        if k == 0 || k >= rest.len() || rest[k] != ';' {
            (None, s, false)
        } else {
            let n = digits_val(rest.subrange(0, k)) as int;
            if n > rest.len() - (k + 1) {
                (None, s, false)
            } else {
                (
                    Some(rest.subrange(k + 1, k + 1 + n)),
                    rest.subrange(k + 1 + n, rest.len() as int),
                    true,
                )
            }
        }
    } else {
        (None, s, false)
    }
}

/// Decode a persisted blob, defaulting every field from the first malformed
/// or missing one on.
pub open spec fn spec_decode(s: Seq<char>) -> PersistedModel {
    let r1 = spec_dec_field(s);
    if !r1.2 {
        PersistedModel { opened_file: None, selected_column: None }
    } else {
        let r2 = spec_dec_field(r1.1);
        if !r2.2 {
            PersistedModel { opened_file: r1.0, selected_column: None }
        } else {
            PersistedModel { opened_file: r1.0, selected_column: r2.0 }
        }
    }
}

/// The digit prefix of an all-digit run followed by a non-digit is the run.
proof fn lemma_digit_prefix_of_concat(a: Seq<char>, b: Seq<char>)
    requires
        all_digits(a),
        b.len() > 0,
        !is_digit(b[0]),
    ensures
        digit_prefix_len(a + b) == a.len(),
    decreases a.len(),
{
    if a.len() == 0 {
        assert(a + b =~= b);
    } else {
        assert((a + b)[0] == a[0]);
        assert((a + b).drop_first() =~= a.drop_first() + b);
        assert(all_digits(a.drop_first())) by {
            assert(forall|i: int| 0 <= i < a.drop_first().len() ==> a.drop_first()[i] == a[i + 1]);
        }
        lemma_digit_prefix_of_concat(a.drop_first(), b);
    }
}

/// Decoding an encoded field gives back the field and the trailing text.
proof fn lemma_dec_enc_field(v: Option<Seq<char>>, tail: Seq<char>)
    ensures
        spec_dec_field(spec_enc_field(v) + tail) == (v, tail, true),
{
    let s = spec_enc_field(v) + tail;
    match v {
        None => {
            assert(s[0] == 'n');
            assert(s.drop_first() =~= tail);
        },
        Some(p) => {
            let d = digits_of(p.len());
            lemma_digits_of_wf(p.len());
            lemma_digits_of_val(p.len());
            assert(s[0] == 's');
            let rest = s.drop_first();
            assert(rest =~= d + (seq![';'] + p + tail));
            lemma_digit_prefix_of_concat(d, seq![';'] + p + tail);
            let k = digit_prefix_len(rest);
            assert(k == d.len());
            assert(rest[k] == ';');
            assert(rest.subrange(0, k) =~= d);
            let n = digits_val(d) as int;
            assert(n == p.len());
            assert(rest.subrange(k + 1, k + 1 + n) =~= p);
            assert(rest.subrange(k + 1 + n, rest.len() as int) =~= tail);
        },
    }
}

/// Encoding the persisted pair and decoding the blob gives the pair back.
pub proof fn lemma_persist_round_trip(m: PersistedModel)
    ensures
        spec_decode(spec_encode(m)) == m,
{
    lemma_dec_enc_field(m.opened_file, spec_enc_field(m.selected_column));
    lemma_dec_enc_field(m.selected_column, Seq::<char>::empty());
    assert(spec_enc_field(m.selected_column) + Seq::<char>::empty() =~= spec_enc_field(
        m.selected_column,
    ));
}

/// A blob from a version that persisted only the opened file still decodes;
/// the field it lacks takes its default value.
pub proof fn lemma_decode_missing_field(v: Option<Seq<char>>)
    ensures
        spec_decode(spec_enc_field(v)) == (PersistedModel {
            opened_file: v,
            selected_column: None,
        }),
{
    lemma_dec_enc_field(v, Seq::<char>::empty());
    assert(spec_enc_field(v) + Seq::<char>::empty() =~= spec_enc_field(v));
}

/// An absent blob decodes to the all-empty pair.
pub proof fn lemma_decode_empty()
    ensures
        spec_decode(Seq::<char>::empty()) == (PersistedModel {
            opened_file: None,
            selected_column: None,
        }),
{
}

/// Append the encoding of one field.
fn enc_field(out: &mut String, v: &Option<String>)
    ensures
        final(out)@ == old(out)@ + spec_enc_field(opt_view(*v)),
{
    match v {
        None => {
            proof {
                reveal_strlit("n");
                assert("n"@ =~= seq!['n']);
            }
            out.append("n");
        },
        Some(p) => {
            proof {
                reveal_strlit("s");
                reveal_strlit(";");
                assert("s"@ =~= seq!['s']);
                assert(";"@ =~= seq![';']);
            }
            out.append("s");
            let n = p.as_str().unicode_len();
            let digits = format_usize(n);
            out.append(digits.as_str());
            out.append(";");
            out.append(p.as_str());
            proof {
                assert(final(out)@ =~= old(out)@ + spec_enc_field(opt_view(*v)));
            }
        },
    }
}

/// Encode the persisted part of a state as a blob.
pub fn encode_persisted(p: &PersistedState) -> (s: String)
    ensures
        s@ == spec_encode(p.model()),
{
    let mut out = String::new();
    enc_field(&mut out, &p.opened_file);
    enc_field(&mut out, &p.selected_column);
    proof {
        assert(out@ =~= spec_encode(p.model()));
    }
    out
}

/// Decode one field of `s` starting at `pos`: the value, the position after
/// the field, and whether it was well formed.
fn dec_field(s: &str, pos: usize) -> (r: (Option<String>, usize, bool))
    requires
        pos <= s@.len(),
    ensures
        ({
            let m = spec_dec_field(s@.subrange(pos as int, s@.len() as int));
            &&& r.2 == m.2
            &&& opt_view(r.0) == m.0
            &&& pos <= r.1 <= s@.len()
            &&& s@.subrange(r.1 as int, s@.len() as int) == m.1
        }),
{
    let len = s.unicode_len();
    let ghost tail = s@.subrange(pos as int, len as int);
    if pos == len {
        return (None, pos, false);
    }
    let c0 = s.get_char(pos);
    proof {
        assert(tail[0] == s@[pos as int]);
    }
    if c0 == 'n' {
        proof {
            assert(s@.subrange(pos + 1, len as int) =~= tail.drop_first());
        }
        return (None, pos + 1, true);
    }
    if c0 != 's' {
        return (None, pos, false);
    }
    let ghost rest = tail.drop_first();
    proof {
        assert(rest =~= s@.subrange(pos + 1, len as int));
    }
    // scan the digit run after the marker
    let mut k: usize = pos + 1;
    while k < len && char_is_digit(s.get_char(k))
        invariant
            pos + 1 <= k <= len,
            len == s@.len(),
            pos < len,
            rest == s@.subrange(pos + 1, len as int),
            forall|i: int| pos + 1 <= i < k ==> is_digit(#[trigger] s@[i]),
        decreases len - k,
    {
        k = k + 1;
    }
    proof {
        lemma_digit_prefix_len_is(rest, k - (pos + 1));
        assert(digit_prefix_len(rest) == k - (pos + 1));
    }
    if k == pos + 1 || k == len {
        return (None, pos, false);
    }
    if s.get_char(k) != ';' {
        proof {
            assert(rest[k - (pos + 1)] == s@[k as int]);
        }
        return (None, pos, false);
    }
    proof {
        assert(rest[k - (pos + 1)] == s@[k as int]);
        assert(rest.subrange(0, k - (pos + 1)) =~= s@.subrange(pos + 1, k as int));
    }
    let digits = s.substring_char(pos + 1, k);
    let remaining = len - (k + 1);
    match parse_digits(digits) {
        None => {
            // the run is all digits and nonempty, so its value exceeds u128,
            // and with it the remaining length
            proof {
                assert(all_digits(digits@));
                assert(digits_val(digits@) > u128::MAX);
            }
            return (None, pos, false);
        },
        Some(v) => {
            if v > remaining as u128 {
                return (None, pos, false);
            }
            let n = v as usize;
            let payload = s.substring_char(k + 1, k + 1 + n).to_owned();
            proof {
                let kk = k - (pos + 1);
                assert(rest.subrange(kk + 1, kk + 1 + n) =~= s@.subrange(k + 1, k + 1 + n));
                assert(rest.subrange(kk + 1 + n, rest.len() as int) =~= s@.subrange(
                    k + 1 + n,
                    len as int,
                ));
            }
            return (Some(payload), k + 1 + n, true);
        },
    }
}

/// Where `s` starts with exactly `k` digits, the digit prefix length is `k`.
proof fn lemma_digit_prefix_len_is(s: Seq<char>, k: int)
    requires
        0 <= k <= s.len(),
        forall|i: int| 0 <= i < k ==> is_digit(#[trigger] s[i]),
        k < s.len() ==> !is_digit(s[k]),
    ensures
        digit_prefix_len(s) == k,
    decreases k,
{
    if k == 0 {
    } else {
        assert(is_digit(s[0]));
        let t = s.drop_first();
        assert(forall|i: int| 0 <= i < k - 1 ==> t[i] == s[i + 1]);
        if k - 1 < t.len() {
            assert(t[k - 1] == s[k]);
        }
        lemma_digit_prefix_len_is(t, k - 1);
    }
}

/// Decode a persisted blob; never fails, defaulting what cannot be read.
pub fn decode_persisted(s: &str) -> (p: PersistedState)
    ensures
        p.model() == spec_decode(s@),
{
    proof {
        assert(s@.subrange(0, s@.len() as int) =~= s@);
    }
    let r1 = dec_field(s, 0);
    if !r1.2 {
        return PersistedState { opened_file: None, selected_column: None };
    }
    let r2 = dec_field(s, r1.1);
    if !r2.2 {
        return PersistedState { opened_file: r1.0, selected_column: None };
    }
    PersistedState { opened_file: r1.0, selected_column: r2.0 }
}

impl AppState {
    /// The persisted part of this state, as owned values.
    pub fn persisted(&self) -> (p: PersistedState)
        ensures
            p.model().opened_file == opt_view(self.opened_file),
            p.model().selected_column == opt_view(self.selected_column),
    {
        let opened_file = match &self.opened_file {
            Some(f) => Some(f.clone()),
            None => None,
        };
        let selected_column = match &self.selected_column {
            Some(c) => Some(c.clone()),
            None => None,
        };
        PersistedState { opened_file, selected_column }
    }

    /// The state restored from a persisted pair: the transient parts start
    /// empty.
    pub fn restore(p: PersistedState) -> (s: AppState)
        ensures
            opt_view(s.opened_file) == p.model().opened_file,
            opt_view(s.selected_column) == p.model().selected_column,
            s.table is None,
            !s.dialog_open,
            s.last_error is None,
    {
        AppState {
            opened_file: p.opened_file,
            selected_column: p.selected_column,
            table: None,
            dialog_open: false,
            last_error: None,
        }
    }
}

} // verus!

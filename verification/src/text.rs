//! Character-sequence helpers: lexicographic order on strings (timestamps and
//! calendar dates in ISO-8601 form compare chronologically this way), the
//! date part of a timestamp, and small string utilities.

use vstd::prelude::*;
use vstd::string::StrSliceExecFns;
use vstd::string::StringExecFns;

verus! {

/// Lexicographic "less than or equal" on character sequences, by code point.
pub open spec fn lex_le(a: Seq<char>, b: Seq<char>) -> bool
    decreases a.len(),
{
    if a.len() == 0 {
        true
    } else if b.len() == 0 {
        false
    } else if (a[0] as u32) < (b[0] as u32) {
        true
    } else if (b[0] as u32) < (a[0] as u32) {
        false
    } else {
        lex_le(a.drop_first(), b.drop_first())
    }
}

pub proof fn lemma_lex_le_total(a: Seq<char>, b: Seq<char>)
    ensures
        lex_le(a, b) || lex_le(b, a),
    decreases a.len(),
{
    if a.len() != 0 && b.len() != 0 && (a[0] as u32) == (b[0] as u32) {
        lemma_lex_le_total(a.drop_first(), b.drop_first());
    }
}

pub proof fn lemma_lex_le_trans(a: Seq<char>, b: Seq<char>, c: Seq<char>)
    requires
        lex_le(a, b),
        lex_le(b, c),
    ensures
        lex_le(a, c),
    decreases a.len(),
{
    if a.len() != 0 {
        if (a[0] as u32) == (b[0] as u32) && (b[0] as u32) == (c[0] as u32) {
            lemma_lex_le_trans(a.drop_first(), b.drop_first(), c.drop_first());
        }
    }
}

/// Decides `lex_le` on string slices.
pub fn lex_le_exec(a: &str, b: &str) -> (r: bool)
    ensures
        r == lex_le(a@, b@),
{
    let a_len = a.unicode_len();
    let b_len = b.unicode_len();
    let mut i: usize = 0;
    proof {
        assert(a@.skip(0) =~= a@);
        assert(b@.skip(0) =~= b@);
    }
    loop
        invariant
            i <= a_len,
            i <= b_len,
            a_len == a@.len(),
            b_len == b@.len(),
            lex_le(a@, b@) == lex_le(a@.skip(i as int), b@.skip(i as int)),
        decreases a_len - i,
    {
        if i == a_len {
            proof {
                assert(a@.skip(i as int).len() == 0);
            }
            return true;
        }
        if i == b_len {
            proof {
                assert(b@.skip(i as int).len() == 0);
                assert(a@.skip(i as int).len() > 0);
            }
            return false;
        }
        let ca = a.get_char(i);
        let cb = b.get_char(i);
        proof {
            assert(a@.skip(i as int)[0] == a@[i as int]);
            assert(b@.skip(i as int)[0] == b@[i as int]);
        }
        if (ca as u32) < (cb as u32) {
            return true;
        }
        if (cb as u32) < (ca as u32) {
            return false;
        }
        proof {
            assert(a@.skip(i as int).drop_first() =~= a@.skip(i + 1));
            assert(b@.skip(i as int).drop_first() =~= b@.skip(i + 1));
        }
        i = i + 1;
    }
}

/// The calendar-date part of an ISO-8601 timestamp: its first ten
/// characters (`YYYY-MM-DD`); a shorter string is its own date key.
pub open spec fn spec_date_of(ts: Seq<char>) -> Seq<char> {
    if ts.len() >= 10 {
        ts.subrange(0, 10)
    } else {
        ts
    }
}

/// Extracts the calendar-date part of a timestamp string.
pub fn date_of_timestamp(ts: &str) -> (r: String)
    ensures
        r@ == spec_date_of(ts@),
{
    let n = ts.unicode_len();
    if n >= 10 {
        ts.substring_char(0, 10).to_owned()
    } else {
        ts.to_owned()
    }
}

pub open spec fn spec_has_dot(s: Seq<char>) -> bool {
    exists|i: int| 0 <= i < s.len() && s[i] == '.'
}

/// The file name a sound name refers to: the name itself when it already
/// carries an extension, otherwise the name with `.wav` appended.
pub fn audio_file_name(sound_name: &str) -> (r: String)
    ensures
        spec_has_dot(sound_name@) ==> r@ == sound_name@,
        !spec_has_dot(sound_name@) ==> r@ == sound_name@ + ".wav"@,
{
    let n = sound_name.unicode_len();
    let mut i: usize = 0;
    let mut found: bool = false;
    while i < n
        invariant
            i <= n,
            n == sound_name@.len(),
            found == exists|k: int| 0 <= k < i && sound_name@[k] == '.',
        decreases n - i,
    {
        if sound_name.get_char(i) == '.' {
            found = true;
        }
        i = i + 1;
    }
    if found {
        sound_name.to_owned()
    } else {
        let mut r = sound_name.to_owned();
        r.append(".wav");
        r
    }
}

} // verus!

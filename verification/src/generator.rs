//! Parsing of the topic generator's reply. The generator is prompted for a
//! dashed list, one suggestion per line; here that text becomes candidate
//! topics: the text after each leading dash, with surrounding blanks removed.
//! Fetching the reply is network work and stays with the caller.

use crate::codec;
use vstd::prelude::*;

verus! {

/// The Unicode white-space code points: what `str::trim` strips.
pub open spec fn blank_code(u: u32) -> bool {
    ||| (0x09 <= u && u <= 0x0D)
    ||| u == 0x20
    ||| u == 0x85
    ||| u == 0xA0
    ||| u == 0x1680
    ||| (0x2000 <= u && u <= 0x200A)
    ||| u == 0x2028
    ||| u == 0x2029
    ||| u == 0x202F
    ||| u == 0x205F
    ||| u == 0x3000
}

/// A white-space character, stripped from the ends of each suggestion.
pub open spec fn is_blank(c: char) -> bool {
    blank_code(c as u32)
}

/// The text without its leading blanks.
pub open spec fn trim_start(s: Seq<char>) -> Seq<char>
    decreases s.len(),
{
    if s.len() > 0 && is_blank(s[0]) {
        trim_start(s.drop_first())
    } else {
        s
    }
}

/// The text without its trailing blanks.
pub open spec fn trim_end(s: Seq<char>) -> Seq<char>
    decreases s.len(),
{
    if s.len() > 0 && is_blank(s.last()) {
        trim_end(s.drop_last())
    } else {
        s
    }
}

/// The text without leading and trailing blanks.
pub open spec fn trim(s: Seq<char>) -> Seq<char> {
    trim_end(trim_start(s))
}

/// The suggestion carried by one line of the reply: what follows the leading
/// dash, trimmed.
pub open spec fn suggestion_of(line: Seq<char>) -> Seq<char> {
    trim(line.skip(1))
}

/// A reply the parser accepts: every line opens with a dash.
pub open spec fn response_wf(s: Seq<char>) -> bool {
    forall|i: int|
        0 <= i < codec::lines_of(s).len() ==> (#[trigger] codec::lines_of(s)[i]).len() > 0
            && codec::lines_of(s)[i][0] == '-'
}

/// Trimming from the left stops at the first non-blank character.
proof fn lemma_trim_start_skip(s: Seq<char>, a: int)
    requires
        0 <= a <= s.len(),
        forall|i: int| 0 <= i < a ==> is_blank(#[trigger] s[i]),
        a < s.len() ==> !is_blank(s[a]),
    ensures
        trim_start(s) == s.skip(a),
    decreases a,
{
    if a == 0 {
        assert(s.skip(0) =~= s);
    } else {
        let r = s.drop_first();
        assert(forall|i: int| 0 <= i < a - 1 ==> is_blank(#[trigger] r[i]));
        lemma_trim_start_skip(r, a - 1);
        assert(r.skip(a - 1) =~= s.skip(a));
    }
}

/// Trimming from the right stops at the last non-blank character.
proof fn lemma_trim_end_take(s: Seq<char>, b: int)
    requires
        0 <= b <= s.len(),
        forall|i: int| b <= i < s.len() ==> is_blank(#[trigger] s[i]),
        b > 0 ==> !is_blank(s[b - 1]),
    ensures
        trim_end(s) == s.take(b),
    decreases s.len() - b,
{
    if b == s.len() {
        assert(s.take(b) =~= s);
    } else {
        assert(is_blank(s[s.len() - 1]));
        let r = s.drop_last();
        assert(forall|i: int| b <= i < r.len() ==> is_blank(#[trigger] r[i]));
        lemma_trim_end_take(r, b);
        assert(r.take(b) =~= s.take(b));
    }
}

/// Whether a character is white space ([`is_blank`]).
fn blank_char(c: char) -> (r: bool)
    ensures
        r == is_blank(c),
{
    let u = c as u32;
    (0x09 <= u && u <= 0x0D) || u == 0x20 || u == 0x85 || u == 0xA0 || u == 0x1680 || (0x2000 <= u
        && u <= 0x200A) || u == 0x2028 || u == 0x2029 || u == 0x202F || u == 0x205F || u == 0x3000
}

/// Strip leading and trailing blanks, as [`trim`] describes.
pub fn trim_blanks(s: &str) -> (r: String)
    ensures
        r@ == trim(s@),
{
    let n = s.unicode_len();
    let mut a: usize = 0;
    while a < n && blank_char(s.get_char(a))
        invariant
            0 <= a <= n,
            n == s@.len(),
            forall|i: int| 0 <= i < a ==> is_blank(#[trigger] s@[i]),
        decreases n - a,
    {
        a = a + 1;
    }
    let mut b: usize = n;
    while b > a && blank_char(s.get_char(b - 1))
        invariant
            a <= b <= n,
            n == s@.len(),
            forall|i: int| b <= i < n ==> is_blank(#[trigger] s@[i]),
        decreases b,
    {
        b = b - 1;
    }
    let r = s.substring_char(a, b).to_owned();
    proof {
        lemma_trim_start_skip(s@, a as int);
        let sk = s@.skip(a as int);
        assert(forall|i: int| b - a <= i < sk.len() ==> is_blank(#[trigger] sk[i]));
        lemma_trim_end_take(sk, b - a);
        assert(sk.take(b - a) =~= s@.subrange(a as int, b as int));
        assert(r@ == trim(s@));
    }
    r
}

/// Whether every line of the reply opens with a dash ([`response_wf`]): the
/// condition under which [`parse_response`] accepts the reply.
pub fn response_ok(text: &str) -> (r: bool)
    ensures
        r == response_wf(text@),
{
    let lines = codec::split_into_lines(text);
    let ghost ls = codec::lines_of(text@);
    let mut i: usize = 0;
    while i < lines.len()
        invariant
            0 <= i <= lines@.len(),
            ls == codec::lines_of(text@),
            lines.deep_view() == ls,
            lines@.len() == ls.len(),
            forall|j: int| 0 <= j < i ==> (#[trigger] ls[j]).len() > 0 && ls[j][0] == '-',
        decreases lines@.len() - i,
    {
        let line = &lines[i];
        proof {
            assert(line@ == ls[i as int]);
        }
        let n = line.as_str().unicode_len();
        if n == 0 {
            proof {
                assert(!response_wf(text@)) by {
                    assert(codec::lines_of(text@)[i as int].len() == 0);
                }
            }
            return false;
        }
        if line.as_str().get_char(0) != '-' {
            proof {
                assert(!response_wf(text@)) by {
                    assert(codec::lines_of(text@)[i as int][0] != '-');
                }
            }
            return false;
        }
        i = i + 1;
    }
    true
}

/// The suggested topics of a generator reply: one per line, each the text
/// after the leading dash with blanks stripped. The reply must be well formed
/// ([`response_wf`]); callers screen it with [`response_ok`] first and treat a
/// refusal as a malformed reply.
pub fn parse_response(response_text: String) -> (topics: Vec<String>)
    requires
        response_wf(response_text@),
    ensures
        topics.deep_view() == codec::lines_of(response_text@).map_values(
            |l: Seq<char>| suggestion_of(l),
        ),
{
    let lines = codec::split_into_lines(response_text.as_str());
    let ghost ls = codec::lines_of(response_text@);
    proof {
        assert(forall|j: int| 0 <= j < ls.len() ==> (#[trigger] ls[j]).len() > 0 && ls[j][0] == '-');
    }
    let mut topics: Vec<String> = Vec::new();
    let mut i: usize = 0;
    while i < lines.len()
        invariant
            0 <= i <= lines@.len(),
            lines.deep_view() == ls,
            lines@.len() == ls.len(),
            forall|j: int| 0 <= j < ls.len() ==> (#[trigger] ls[j]).len() > 0 && ls[j][0] == '-',
            topics.deep_view().len() == i,
            forall|j: int| 0 <= j < i ==> topics.deep_view()[j] == suggestion_of(#[trigger] ls[j]),
        decreases lines@.len() - i,
    {
        let ghost pre = topics.deep_view();
        let line = &lines[i];
        proof {
            assert(line@ == ls[i as int]);
            assert(ls[i as int].len() > 0);
        }
        let n = line.as_str().unicode_len();
        let rest = line.as_str().substring_char(1, n);
        let tpc = trim_blanks(rest);
        proof {
            assert(rest@ =~= ls[i as int].skip(1));
            assert(tpc@ == suggestion_of(ls[i as int]));
        }
        topics.push(tpc);
        proof {
            assert(topics.deep_view() =~= pre.push(tpc@));
        }
        i = i + 1;
    }
    proof {
        assert(topics.deep_view() =~= ls.map_values(|l: Seq<char>| suggestion_of(l)));
    }
    topics
}

} // verus!

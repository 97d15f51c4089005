//! Parsing of the comma-joined index-column lists that the catalog returns:
//! splitting on commas and trimming whitespace per element, order preserved,
//! no deduplication.

use vstd::prelude::*;
use vstd::string::StrSliceExecFns;
use crate::model::strs_of;
use crate::text::push_char;

verus! {

/// The whitespace characters that trimming removes.
pub open spec fn is_space(c: char) -> bool {
    c == ' ' || c == '\t' || c == '\n' || c == '\r'
}

fn is_space_exec(c: char) -> (r: bool)
    ensures
        r == is_space(c),
{
    c == ' ' || c == '\t' || c == '\n' || c == '\r'
}

/// The string with its leading whitespace removed.
pub open spec fn trim_front(s: Seq<char>) -> Seq<char>
    decreases s.len(),
{
    if s.len() > 0 && is_space(s[0]) {
        trim_front(s.drop_first())
    } else {
        s
    }
}

/// The string with its trailing whitespace removed.
pub open spec fn trim_back(s: Seq<char>) -> Seq<char>
    decreases s.len(),
{
    if s.len() > 0 && is_space(s.last()) {
        trim_back(s.drop_last())
    } else {
        s
    }
}

/// The string with leading and trailing whitespace removed.
pub open spec fn trim_spec(s: Seq<char>) -> Seq<char> {
    trim_back(trim_front(s))
}

/// Splitting on commas, from the front: every comma separates two pieces, so
/// the result has one piece more than the string has commas, and an empty
/// string yields one empty piece.
pub open spec fn split_commas(s: Seq<char>) -> Seq<Seq<char>>
    decreases s.len(),
{
    if s.len() == 0 {
        seq![Seq::<char>::empty()]
    } else {
        let rest = split_commas(s.drop_first());
        if s[0] == ',' {
            seq![Seq::<char>::empty()] + rest
        } else {
            seq![seq![s[0]] + rest[0]] + rest.drop_first()
        }
    }
}

/// Splitting on commas always yields at least one piece.
pub proof fn lemma_split_commas_len(s: Seq<char>)
    ensures
        split_commas(s).len() >= 1,
    decreases s.len(),
{
    if s.len() > 0 {
        lemma_split_commas_len(s.drop_first());
    }
}

/// What the parsed column list of an index row is: the comma-separated
/// pieces, each trimmed, order preserved.
pub open spec fn split_trim(s: Seq<char>) -> Seq<Seq<char>> {
    split_commas(s).map_values(|p: Seq<char>| trim_spec(p))
}

/// If the first `a` characters of `s` are whitespace and the character at
/// `a`, if any, is not, trimming the front drops exactly those `a`.
proof fn lemma_trim_front_skip(s: Seq<char>, a: int)
    requires
        0 <= a <= s.len(),
        forall|k: int| 0 <= k < a ==> is_space(#[trigger] s[k]),
        a == s.len() || !is_space(s[a]),
    ensures
        trim_front(s) == s.skip(a),
    decreases a,
{
    if a == 0 {
        assert(s.skip(0) =~= s);
    } else {
        assert(is_space(s[0]));
        lemma_trim_front_skip(s.drop_first(), a - 1);
        assert(s.drop_first().skip(a - 1) =~= s.skip(a));
    }
}

/// If the characters from `b` on are whitespace and the character before
/// `b`, if any, is not, trimming the back keeps exactly the first `b`.
proof fn lemma_trim_back_take(s: Seq<char>, b: int)
    requires
        0 <= b <= s.len(),
        forall|k: int| b <= k < s.len() ==> is_space(#[trigger] s[k]),
        b == 0 || !is_space(s[b - 1]),
    ensures
        trim_back(s) == s.take(b),
    decreases s.len() - b,
{
    if b == s.len() {
        assert(s.take(b) =~= s);
    } else {
        assert(is_space(s.last()));
        lemma_trim_back_take(s.drop_last(), b);
        assert(s.drop_last().take(b) =~= s.take(b));
    }
}

/// Remove leading and trailing whitespace from a string.
pub fn trim(s: &str) -> (r: String)
    ensures
        r@ == trim_spec(s@),
{
    let n = s.unicode_len();
    let mut a: usize = 0;
    while a < n && is_space_exec(s.get_char(a))
        invariant
            0 <= a <= n,
            n == s@.len(),
            forall|k: int| 0 <= k < a ==> is_space(#[trigger] s@[k]),
        decreases n - a,
    {
        a += 1;
    }
    if a == n {
        proof {
            lemma_trim_front_skip(s@, a as int);
            assert(s@.skip(n as int) =~= Seq::<char>::empty());
        }
        return String::new();
    }
    let mut b: usize = n;
    while b > a && is_space_exec(s.get_char(b - 1))
        invariant
            a <= b <= n,
            n == s@.len(),
            a < n,
            !is_space(s@[a as int]),
            forall|k: int| b <= k < n ==> is_space(#[trigger] s@[k]),
        decreases b,
    {
        b -= 1;
    }
    proof {
        lemma_trim_front_skip(s@, a as int);
        if b == a {
            assert(!is_space(s@.skip(a as int)[0]));
            assert(false);
        }
        lemma_trim_back_take(s@.skip(a as int), b - a);
        assert(s@.skip(a as int).take(b - a) =~= s@.subrange(a as int, b as int));
    }
    let piece = s.substring_char(a, b);
    piece.to_owned()
}

/// Split a string on commas, keeping every piece untrimmed.
fn split_commas_exec(s: &str) -> (r: Vec<String>)
    ensures
        strs_of(r@) == split_commas(s@),
{
    let n = s.unicode_len();
    let mut out: Vec<String> = Vec::new();
    let mut buf = String::new();
    let mut i: usize = 0;
    proof {
        lemma_split_commas_len(s@);
        assert(s@.skip(0) =~= s@);
        assert(strs_of(out@) =~= Seq::<Seq<char>>::empty());
        assert(buf@ + split_commas(s@)[0] =~= split_commas(s@)[0]);
        assert(split_commas(s@) =~= strs_of(out@) + seq![buf@ + split_commas(s@.skip(0))[0]]
            + split_commas(s@.skip(0)).drop_first());
    }
    while i < n
        invariant
            0 <= i <= n,
            n == s@.len(),
            split_commas(s@) == strs_of(out@) + seq![buf@ + split_commas(s@.skip(i as int))[0]]
                + split_commas(s@.skip(i as int)).drop_first(),
        decreases n - i,
    {
        let c = s.get_char(i);
        let ghost sk = s@.skip(i as int);
        let ghost sk1 = s@.skip(i as int + 1);
        proof {
            assert(sk.len() > 0);
            assert(sk[0] == s@[i as int]);
            assert(sk.drop_first() =~= sk1);
            lemma_split_commas_len(sk);
            lemma_split_commas_len(sk1);
            assert(split_commas(sk1) =~= seq![split_commas(sk1)[0]] + split_commas(
                sk1,
            ).drop_first());
        }
        if c == ',' {
            let ghost out0 = out@;
            let ghost buf0 = buf@;
            let done = buf;
            buf = String::new();
            out.push(done);
            proof {
                assert(split_commas(sk) =~= seq![Seq::<char>::empty()] + split_commas(sk1));
                assert(buf0 + split_commas(sk)[0] =~= buf0);
                assert(split_commas(sk).drop_first() =~= split_commas(sk1));
                assert(strs_of(out@) =~= strs_of(out0).push(buf0));
                assert(buf@ + split_commas(sk1)[0] =~= split_commas(sk1)[0]);
                assert(strs_of(out@) + seq![buf@ + split_commas(sk1)[0]] + split_commas(
                    sk1,
                ).drop_first() =~= split_commas(s@));
            }
        } else {
            let ghost buf0 = buf@;
            push_char(&mut buf, c);
            proof {
                assert(split_commas(sk) =~= seq![seq![sk[0]] + split_commas(sk1)[0]]
                    + split_commas(sk1).drop_first());
                assert(buf0 + split_commas(sk)[0] =~= buf@ + split_commas(sk1)[0]);
                assert(strs_of(out@) + seq![buf@ + split_commas(sk1)[0]] + split_commas(
                    sk1,
                ).drop_first() =~= split_commas(s@));
            }
        }
        i += 1;
    }
    let ghost out0 = out@;
    let ghost buf0 = buf@;
    out.push(buf);
    proof {
        assert(s@.skip(n as int) =~= Seq::<char>::empty());
        assert(split_commas(s@.skip(n as int)) =~= seq![Seq::<char>::empty()]);
        assert(buf0 + split_commas(s@.skip(n as int))[0] =~= buf0);
        assert(split_commas(s@.skip(n as int)).drop_first() =~= Seq::<Seq<char>>::empty());
        assert(strs_of(out@) =~= strs_of(out0).push(buf0));
        assert(strs_of(out@) =~= split_commas(s@));
    }
    out
}

/// Parse the comma-joined, ordered column list of an index row: split on
/// commas and trim whitespace per element, order preserved, nothing
/// deduplicated.
pub fn parse_index_columns(s: &str) -> (r: Vec<String>)
    ensures
        strs_of(r@) == split_trim(s@),
{
    let pieces = split_commas_exec(s);
    let mut out: Vec<String> = Vec::new();
    let mut i: usize = 0;
    let n = pieces.len();
    while i < n
        invariant
            0 <= i <= n,
            n == pieces@.len(),
            strs_of(pieces@) == split_commas(s@),
            out@.len() == i,
            forall|k: int| 0 <= k < i ==> strs_of(out@)[k] == trim_spec(
                #[trigger] split_commas(s@)[k]),
        decreases n - i,
    {
        let t = trim(pieces[i].as_str());
        proof {
            assert(pieces@[i as int]@ == strs_of(pieces@)[i as int]);
        }
        out.push(t);
        proof {
            assert(forall|k: int|
                0 <= k < i ==> strs_of(out@)[k] == strs_of(out@.drop_last())[k]);
        }
        i += 1;
    }
    proof {
        assert(strs_of(out@) =~= split_trim(s@));
    }
    out
}

} // verus!

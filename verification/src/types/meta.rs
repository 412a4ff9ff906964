//! The meta field of a response header.

use vstd::prelude::*;
use crate::error::GemError;
use crate::strutil::char_utf8_len;
use crate::strutil::exec_char_utf8_len;
use crate::strutil::lemma_utf8_len_bounds;
use crate::strutil::lemma_utf8_len_concat;
use crate::strutil::lemma_utf8_len_push;
use crate::strutil::utf8_len;

verus! {

/// The text portion of a response header, after the status code. Its two
/// invariants are enforced at construction: it contains no `'\n'`, and its
/// UTF-8 encoding is at most [`Meta::MAX_LEN`] bytes long.
#[derive(Debug, Clone, PartialEq, Eq)]
pub struct Meta(String);

/// The invariant of a meta value with the given view.
pub open spec fn meta_wf(s: Seq<char>) -> bool {
    !s.contains('\n') && utf8_len(s) <= Meta::MAX_LEN
}

/// What the lossy constructor keeps of `s` when `limit` bytes are still
/// available: the longest prefix that stops before the first `'\n'` and
/// before the character whose inclusive end would exceed the limit.
pub open spec fn lossy_meta(s: Seq<char>, limit: int) -> Seq<char>
    decreases s.len(),
{
    if s.len() == 0 {
        Seq::empty()
    } else if s[0] == '\n' || char_utf8_len(s[0]) > limit {
        Seq::empty()
    } else {
        seq![s[0]] + lossy_meta(s.drop_first(), limit - char_utf8_len(s[0]))
    }
}

/// The lossy truncation always satisfies the meta invariant.
pub proof fn lemma_lossy_meta_wf(s: Seq<char>, limit: int)
    requires
        0 <= limit,
    ensures
        !lossy_meta(s, limit).contains('\n'),
        utf8_len(lossy_meta(s, limit)) <= limit,
    decreases s.len(),
{
    if s.len() == 0 || s[0] == '\n' || char_utf8_len(s[0]) > limit {
    } else {
        let rest = lossy_meta(s.drop_first(), limit - char_utf8_len(s[0]));
        lemma_lossy_meta_wf(s.drop_first(), limit - char_utf8_len(s[0]));
        assert(utf8_len(seq![s[0]] + rest) == char_utf8_len(s[0]) + utf8_len(rest)) by {
            lemma_utf8_len_concat(seq![s[0]], rest);
            crate::strutil::lemma_utf8_len_singleton(s[0]);
        }
        assert forall|i: int| 0 <= i < (seq![s[0]] + rest).len() implies (seq![s[0]] + rest)[i]
            != '\n' by {
            if i > 0 {
                assert(rest[i - 1] != '\n');
            }
        }
    }
}

/// The lossy truncation keeps a string that already satisfies the invariant
/// unchanged.
pub proof fn lemma_lossy_meta_identity(s: Seq<char>, limit: int)
    requires
        !s.contains('\n'),
        utf8_len(s) <= limit,
    ensures
        lossy_meta(s, limit) == s,
    decreases s.len(),
{
    if s.len() > 0 {
        assert(s[0] != '\n') by {
            assert(s.contains(s[0]));
        }
        lemma_utf8_len_bounds(s.drop_first());
        assert(!s.drop_first().contains('\n')) by {
            if s.drop_first().contains('\n') {
                let i = choose|i: int|
                    0 <= i < s.drop_first().len() && s.drop_first()[i] == '\n';
                assert(s[i + 1] == '\n');
                assert(s.contains(s[i + 1]));
            }
        }
        lemma_lossy_meta_identity(s.drop_first(), limit - char_utf8_len(s[0]));
        assert(seq![s[0]] + s.drop_first() =~= s);
    }
}

/// When nothing stops the scan at the head of `s`, the lossy truncation keeps
/// the head character.
proof fn lemma_lossy_meta_step(s: Seq<char>, limit: int, i: int)
    requires
        0 <= i < s.len(),
        s[i] != '\n',
        char_utf8_len(s[i]) <= limit - utf8_len(s.subrange(0, i)),
    ensures
        s.subrange(0, i) + lossy_meta(s.skip(i), limit - utf8_len(s.subrange(0, i))) == s.subrange(
            0,
            i + 1,
        ) + lossy_meta(s.skip(i + 1), limit - utf8_len(s.subrange(0, i + 1))),
{
    let pre = s.subrange(0, i);
    let tail = s.skip(i);
    assert(tail[0] == s[i]);
    assert(tail.drop_first() =~= s.skip(i + 1));
    assert(s.subrange(0, i + 1) =~= pre.push(s[i]));
    lemma_utf8_len_push(pre, s[i]);
    assert(pre + (seq![s[i]] + lossy_meta(
        s.skip(i + 1),
        limit - utf8_len(pre) - char_utf8_len(s[i]),
    )) =~= pre.push(s[i]) + lossy_meta(s.skip(i + 1), limit - utf8_len(pre) - char_utf8_len(s[i])));
}

impl View for Meta {
    type V = Seq<char>;

    closed spec fn view(&self) -> Seq<char> {
        self.0@
    }
}

impl Meta {
    /// Longest allowed UTF-8 encoding of a meta value, in bytes.
    pub const MAX_LEN: usize = 1024;

    /// This meta value satisfies its invariant. Both constructors establish
    /// it, so every reachable `Meta` is well formed.
    pub open spec fn wf(self) -> bool {
        meta_wf(self@)
    }

    /// The strict constructor: succeeds exactly when `meta` already satisfies
    /// the invariant, and then keeps it unchanged.
    pub fn new(meta: &str) -> (r: Result<Meta, GemError>)
        ensures
            r is Ok <==> meta_wf(meta@),
            r matches Ok(m) ==> m@ == meta@ && m.wf(),
            r matches Err(e) ==> e == GemError::InvalidMeta,
    {
        let n = meta.unicode_len();
        let mut i: usize = 0;
        let mut pos: usize = 0;
        while i < n
            invariant
                n == meta@.len(),
                i <= n,
                pos == utf8_len(meta@.subrange(0, i as int)),
                pos <= Meta::MAX_LEN,
                forall|j: int| 0 <= j < i ==> meta@[j] != '\n',
            decreases n - i,
        {
            let c = meta.get_char(i);
            if c == '\n' {
                return Err(GemError::InvalidMeta);
            }
            let cl = exec_char_utf8_len(c);
            proof {
                lemma_utf8_len_push(meta@.subrange(0, i as int), c);
                assert(meta@.subrange(0, i as int).push(c) =~= meta@.subrange(0, i + 1));
            }
            if pos + cl > Meta::MAX_LEN {
                proof {
                    assert(meta@ =~= meta@.subrange(0, i + 1) + meta@.skip(i + 1));
                    lemma_utf8_len_concat(meta@.subrange(0, i + 1), meta@.skip(i + 1));
                    lemma_utf8_len_bounds(meta@.skip(i + 1));
                }
                return Err(GemError::InvalidMeta);
            }
            pos = pos + cl;
            i += 1;
        }
        proof {
            assert(meta@.subrange(0, n as int) =~= meta@);
            if meta@.contains('\n') {
                let j = choose|j: int| 0 <= j < meta@.len() && meta@[j] == '\n';
                assert(meta@[j] != '\n');
            }
        }
        Ok(Meta(meta.to_owned()))
    }

    /// The lossy constructor: truncates before the first `'\n'` or before the
    /// character whose inclusive end would exceed `MAX_LEN` bytes, whichever
    /// comes first. It never fails and its result is always well formed.
    pub fn new_lossy(meta: &str) -> (m: Meta)
        ensures
            m@ == lossy_meta(meta@, Meta::MAX_LEN as int),
            m.wf(),
            meta_wf(meta@) ==> m@ == meta@,
    {
        proof {
            if meta_wf(meta@) {
                lemma_lossy_meta_identity(meta@, Meta::MAX_LEN as int);
            }
        }
        let n = meta.unicode_len();
        let mut i: usize = 0;
        let mut pos: usize = 0;
        let ghost limit = Meta::MAX_LEN as int;
        let mut stop: usize = n;
        let mut stopped = false;
        proof {
            assert(meta@.subrange(0, 0) =~= Seq::<char>::empty());
            assert(meta@.skip(0) =~= meta@);
            assert(Seq::<char>::empty() + lossy_meta(meta@, limit) =~= lossy_meta(meta@, limit));
        }
        while i < n && !stopped
            invariant
                limit == Meta::MAX_LEN as int,
                n == meta@.len(),
                i <= n,
                pos == utf8_len(meta@.subrange(0, i as int)),
                pos <= Meta::MAX_LEN,
                lossy_meta(meta@, limit) == meta@.subrange(0, i as int) + lossy_meta(
                    meta@.skip(i as int),
                    limit - pos,
                ),
                stopped ==> lossy_meta(meta@.skip(i as int), limit - pos) == Seq::<char>::empty(),
                stopped ==> stop == i,
                !stopped ==> stop == n,
            decreases n - i, (if stopped { 0int } else { 1int }),
        {
            let c = meta.get_char(i);
            let cl = exec_char_utf8_len(c);
            if c == '\n' || pos + cl > Meta::MAX_LEN {
                stopped = true;
                stop = i;
                proof {
                    assert(meta@.skip(i as int)[0] == c);
                    assert(lossy_meta(meta@.skip(i as int), limit - pos) =~= Seq::<char>::empty());
                }
            } else {
                proof {
                    lemma_lossy_meta_step(meta@, limit, i as int);
                    lemma_utf8_len_push(meta@.subrange(0, i as int), c);
                    assert(meta@.subrange(0, i as int).push(c) =~= meta@.subrange(0, i + 1));
                }
                pos = pos + cl;
                i += 1;
            }
        }
        proof {
            if !stopped {
                assert(meta@.skip(n as int) =~= Seq::<char>::empty());
            }
            assert(lossy_meta(meta@, limit) =~= meta@.subrange(0, stop as int));
            lemma_lossy_meta_wf(meta@, limit);
        }
        Meta(meta.substring_char(0, stop).to_owned())
    }

    /// The empty meta value.
    pub fn empty() -> (m: Meta)
        ensures
            m@ == Seq::<char>::empty(),
            m.wf(),
    {
        Meta(String::new())
    }

    /// The meta value as a string.
    pub fn as_str(&self) -> (r: &str)
        ensures
            r@ == self@,
    {
        self.0.as_str()
    }

    /// The meta value parsed as a MIME type; fails when the `mime` crate's
    /// grammar rejects it.
    pub fn to_mime(&self) -> (r: Result<mime::Mime, GemError>)
        ensures
            r is Ok <==> crate::bindings::mime_parses(self@),
            r matches Err(e) ==> e == GemError::InvalidMeta,
    {
        match crate::bindings::parse_mime(self.as_str()) {
            Some(mime) => Ok(mime),
            None => Err(GemError::InvalidMeta),
        }
    }
}

impl Default for Meta {
    /// The empty meta value.
    fn default() -> (m: Meta)
        ensures
            m@ == Seq::<char>::empty(),
    {
        Meta::empty()
    }
}

} // verus!

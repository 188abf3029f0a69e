//! The wire codec: a chat message travels as the text `"<username>: <content>"`.

use vstd::prelude::*;
use vstd::string::*;
use vstd::utf8::*;
use crate::text::{chars_of, string_of_range};

verus! {

/// No character of `s` is a colon.
pub open spec fn colon_free(s: Seq<char>) -> bool {
    forall|i: int| 0 <= i < s.len() ==> s[i] != ':'
}

/// `s` holds exactly one colon, at index `i`.
pub open spec fn splits_at(s: Seq<char>, i: int) -> bool {
    &&& 0 <= i < s.len()
    &&& s[i] == ':'
    &&& colon_free(s.take(i))
    &&& colon_free(s.skip(i + 1))
}

/// `s` holds exactly one colon.
pub open spec fn single_colon(s: Seq<char>) -> bool {
    exists|i: int| splits_at(s, i)
}

/// `s` holds two colons or more.
pub open spec fn several_colons(s: Seq<char>) -> bool {
    exists|a: int, b: int| 0 <= a < b < s.len() && s[a] == ':' && s[b] == ':'
}

/// What a payload decodes to, as (username, content): the two parts around its
/// colon when it has exactly one, two empty texts otherwise.
pub open spec fn decode_view(s: Seq<char>) -> (Seq<char>, Seq<char>) {
    if single_colon(s) {
        let i = choose|i: int| splits_at(s, i);
        (s.take(i), s.skip(i + 1))
    } else {
        (Seq::empty(), Seq::empty())
    }
}

/// The wire text of a message: username, a colon and a space, content.
pub open spec fn encode_view(username: Seq<char>, content: Seq<char>) -> Seq<char> {
    username + seq![':', ' '] + content
}

/// The text that `String::from_utf8_lossy` makes of a byte string.
pub uninterp spec fn lossy_utf8(bytes: Seq<u8>) -> Seq<char>;

/// Relies on `String::from_utf8_lossy`: bytes that are valid UTF-8 decode to their
/// characters; any other byte string gives some text, a function of the bytes alone.
#[verifier::external_body]
fn text_from_utf8_lossy(bytes: &[u8]) -> (r: String)
    ensures
        r@ == lossy_utf8(bytes@),
        valid_utf8(bytes@) ==> r@ == decode_utf8(bytes@),
{
    String::from_utf8_lossy(bytes).into_owned()
}

/// A chat message: who wrote it and what they wrote.
#[derive(Clone, Debug)]
pub struct ChatMessage {
    pub username: String,
    pub content: String,
}

impl View for ChatMessage {
    type V = (Seq<char>, Seq<char>);

    open spec fn view(&self) -> (Seq<char>, Seq<char>) {
        (self.username@, self.content@)
    }
}

impl Default for ChatMessage {
    /// The empty message, which malformed payloads decode to.
    fn default() -> (r: ChatMessage)
        ensures
            r@ == (Seq::<char>::empty(), Seq::<char>::empty()),
    {
        ChatMessage { username: String::new(), content: String::new() }
    }
}

proof fn lemma_split_unique(s: Seq<char>, i: int, j: int)
    requires
        splits_at(s, i),
        splits_at(s, j),
    ensures
        i == j,
{
    if i < j {
        assert(s.skip(i + 1)[j - i - 1] == s[j]);
    } else if j < i {
        assert(s.skip(j + 1)[i - j - 1] == s[i]);
    }
}

proof fn lemma_split_decodes(s: Seq<char>, i: int)
    requires
        splits_at(s, i),
    ensures
        decode_view(s) == (s.take(i), s.skip(i + 1)),
{
    let k = choose|k: int| splits_at(s, k);
    lemma_split_unique(s, i, k);
}

proof fn lemma_no_single_colon(s: Seq<char>)
    requires
        colon_free(s) || several_colons(s),
    ensures
        !single_colon(s),
{
    if single_colon(s) {
        let i = choose|i: int| splits_at(s, i);
        if several_colons(s) {
            let (a, b) = choose|a: int, b: int|
                0 <= a < b < s.len() && s[a] == ':' && s[b] == ':';
            if a < i {
                assert(s.take(i)[a] == s[a]);
            } else if a > i {
                assert(s.skip(i + 1)[a - i - 1] == s[a]);
            } else {
                assert(s.skip(i + 1)[b - i - 1] == s[b]);
            }
        }
    }
}

/// A payload with exactly one colon decodes to the texts on either side of it.
pub proof fn lemma_decode_single_colon(username: Seq<char>, content: Seq<char>)
    requires
        colon_free(username),
        colon_free(content),
    ensures
        decode_view(username + seq![':'] + content) == (username, content),
{
    let s = username + seq![':'] + content;
    let i = username.len() as int;
    assert(s.take(i) =~= username);
    assert(s.skip(i + 1) =~= content);
    lemma_split_decodes(s, i);
}

/// Decoding the wire text of a message whose fields hold no colon gives back the
/// username unchanged and the content behind the space of the separator.
pub proof fn lemma_decode_encode(username: Seq<char>, content: Seq<char>)
    requires
        colon_free(username),
        colon_free(content),
    ensures
        decode_view(encode_view(username, content)) == (username, seq![' '] + content),
{
    let rest = seq![' '] + content;
    assert(colon_free(rest)) by {
        assert forall|k: int| 0 <= k < rest.len() implies rest[k] != ':' by {
            if k > 0 {
                assert(rest[k] == content[k - 1]);
            }
        }
    }
    assert(encode_view(username, content) =~= username + seq![':'] + rest);
    lemma_decode_single_colon(username, rest);
}

/// A payload with no colon, or with two or more, decodes to the empty message.
pub proof fn lemma_decode_malformed(s: Seq<char>)
    requires
        colon_free(s) || several_colons(s),
    ensures
        decode_view(s) == (Seq::<char>::empty(), Seq::<char>::empty()),
{
    lemma_no_single_colon(s);
}

impl ChatMessage {
    /// A message with the given fields.
    pub fn new(username: String, content: String) -> (r: ChatMessage)
        ensures
            r@ == (username@, content@),
    {
        ChatMessage { username, content }
    }

    /// The wire text of this message: `"<username>: <content>"`.
    pub fn encode(&self) -> (r: String)
        ensures
            r@ == encode_view(self.username@, self.content@),
    {
        let mut r = self.username.clone();
        r.append(": ");
        proof {
            reveal_strlit(": ");
        }
        r.append(self.content.as_str());
        assert(r@ =~= encode_view(self.username@, self.content@));
        r
    }

    /// Reads a payload: split on its only colon, or the empty message when it has
    /// no colon or more than one.
    pub fn decode(text: &str) -> (r: ChatMessage)
        ensures
            r@ == decode_view(text@),
    {
        let chars = chars_of(text);
        let n = chars.len();
        let mut colons: usize = 0;
        let mut first: usize = 0;
        let mut second: usize = 0;
        let mut i: usize = 0;
        while i < n && colons < 2
            invariant
                chars@ == text@,
                n == text@.len(),
                i <= n,
                colons <= 2,
                colons == 0 ==> colon_free(text@.take(i as int)),
                colons >= 1 ==> first < i && text@[first as int] == ':' && colon_free(
                    text@.take(first as int),
                ),
                colons == 1 ==> colon_free(text@.subrange(first + 1, i as int)),
                colons == 2 ==> first < second < i && text@[second as int] == ':',
            decreases n - i,
        {
            let c = chars[i];
            if c == ':' {
                if colons == 0 {
                    first = i;
                    assert(text@.take(first as int) =~= text@.take(i as int));
                } else {
                    second = i;
                }
                colons = colons + 1;
            }
            proof {
                let t = text@;
                let j = i as int;
                let f = first as int;
                if colons == 0 {
                    assert forall|k: int| 0 <= k < j + 1 implies #[trigger] t.take(j + 1)[k]
                        != ':' by {
                        if k < j {
                            assert(t.take(j + 1)[k] == t.take(j)[k]);
                        }
                    }
                }
                if colons == 1 && c != ':' {
                    assert forall|k: int| 0 <= k < j - f implies #[trigger] t.subrange(
                        f + 1,
                        j + 1,
                    )[k] != ':' by {
                        if k < j - f - 1 {
                            assert(t.subrange(f + 1, j + 1)[k] == t.subrange(f + 1, j)[k]);
                        }
                    }
                }
                if colons == 1 && c == ':' {
                    assert(t.subrange(f + 1, j + 1).len() == 0);
                }
            }
            i = i + 1;
        }
        if colons == 1 {
            proof {
                assert(text@.subrange(first + 1, n as int) =~= text@.skip(first + 1));
                lemma_split_decodes(text@, first as int);
            }
            let username = string_of_range(&chars, 0, first);
            let content = string_of_range(&chars, first + 1, n);
            assert(username@ =~= text@.take(first as int));
            assert(content@ =~= text@.skip(first + 1));
            ChatMessage { username, content }
        } else {
            proof {
                if colons == 0 {
                    assert(text@.take(n as int) =~= text@);
                }
                lemma_no_single_colon(text@);
            }
            ChatMessage::default()
        }
    }

    /// Reads a payload of raw bytes, substituting the replacement character for
    /// invalid UTF-8, then decodes it as text.
    pub fn decode_bytes(bytes: &[u8]) -> (r: ChatMessage)
        ensures
            r@ == decode_view(lossy_utf8(bytes@)),
            valid_utf8(bytes@) ==> r@ == decode_view(decode_utf8(bytes@)),
    {
        let text = text_from_utf8_lossy(bytes);
        ChatMessage::decode(text.as_str())
    }
}

} // verus!

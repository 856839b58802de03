//! Validated destination names for the messaging bus.

use vstd::prelude::*;
use crate::text::push_char;

verus! {

/// A validated topic name: non-empty, at most 255 bytes, characters drawn
/// from ASCII letters, digits, `.`, `-` and `_`.
pub struct Topic {
    name: String,
}

/// Why a candidate topic name was rejected.
#[derive(Debug)]
pub enum TopicValidationError {
    Empty,
    InvalidCharacters(String),
    TooLong(usize),
}

/// Characters a topic name may contain.
pub open spec fn topic_char_ok(c: char) -> bool {
    (97 <= c as u32 && c as u32 <= 122)  // 'a'..='z'
    || (65 <= c as u32 && c as u32 <= 90)  // 'A'..='Z'
    || (48 <= c as u32 && c as u32 <= 57)  // '0'..='9'
    || c == '.' || c == '-' || c == '_'
}

/// The byte length of a string under UTF-8.
pub open spec fn utf8_len(s: Seq<char>) -> nat {
    vstd::utf8::encode_utf8(s).len()
}

/// A well-formed topic name.
pub open spec fn topic_valid(s: Seq<char>) -> bool {
    &&& s.len() > 0
    &&& utf8_len(s) <= 255
    &&& forall|i: int| 0 <= i < s.len() ==> topic_char_ok(#[trigger] s[i])
}

impl View for Topic {
    type V = Seq<char>;

    closed spec fn view(&self) -> Seq<char> {
        self.name@
    }
}

impl Topic {
    /// Every reachable topic satisfies the validity predicate.
    pub closed spec fn wf(&self) -> bool {
        topic_valid(self.name@)
    }

    /// Validate a candidate name. Returns the topic exactly when the name is
    /// non-empty, at most 255 bytes long, and made of the allowed characters;
    /// otherwise reports the first applicable failure: emptiness, then length,
    /// then the invalid characters in order of appearance.
    pub fn new(s: String) -> (r: Result<Topic, TopicValidationError>)
        ensures
            r is Ok <==> topic_valid(s@),
            r matches Ok(t) ==> t@ == s@ && t.wf(),
            r matches Err(e) ==> match e {
                TopicValidationError::Empty => s@.len() == 0,
                TopicValidationError::TooLong(n) => s@.len() > 0 && utf8_len(s@) > 255 && n == utf8_len(s@),
                TopicValidationError::InvalidCharacters(bad) => {
                    &&& s@.len() > 0
                    &&& utf8_len(s@) <= 255
                    &&& bad@ == s@.filter(|c: char| !topic_char_ok(c))
                    &&& bad@.len() > 0
                },
            },
    {
        let st: &str = s.as_str();
        if st.unicode_len() == 0 {
            return Err(TopicValidationError::Empty);
        }
        let bytes: &[u8] = st.as_bytes();
        let byte_len: usize = bytes.len();
        proof {
            assert(bytes@.len() == utf8_len(s@));
        }
        if byte_len > 255 {
            return Err(TopicValidationError::TooLong(byte_len));
        }
        let n: usize = st.unicode_len();
        let mut bad: String = String::new();
        let mut i: usize = 0;
        while i < n
            invariant
                n == s@.len(),
                st@ == s@,
                i <= n,
                bad@ == s@.take(i as int).filter(|c: char| !topic_char_ok(c)),
            decreases n - i,
        {
            let c = st.get_char(i);
            let cv = c as u32;
            let ok = (97 <= cv && cv <= 122) || (65 <= cv && cv <= 90) || (48 <= cv && cv <= 57)
                || c == '.' || c == '-' || c == '_';
            proof {
                assert(ok == topic_char_ok(s@[i as int]));
                reveal(Seq::filter);
                assert(s@.take(i + 1).drop_last() =~= s@.take(i as int));
                assert(s@.take(i + 1).last() == s@[i as int]);
            }
            if !ok {
                push_char(&mut bad, c);
            }
            i += 1;
        }
        proof {
            assert(s@.take(n as int) =~= s@);
        }
        if bad.as_str().unicode_len() > 0 {
            proof {
                let p = |c: char| !topic_char_ok(c);
                assert(!topic_valid(s@)) by {
                    if topic_valid(s@) {
                        assert(s@.all(|c: char| !p(c))) by {
                            assert forall|j: int| 0 <= j < s@.len() implies !p(#[trigger] s@[j]) by {
                                assert(topic_char_ok(s@[j]));
                            }
                        }
                        s@.lemma_all_neg_filter_empty(p);
                    }
                }
            }
            return Err(TopicValidationError::InvalidCharacters(bad));
        }
        proof {
            let p = |c: char| !topic_char_ok(c);
            assert forall|j: int| 0 <= j < s@.len() implies topic_char_ok(#[trigger] s@[j]) by {
                if p(s@[j]) {
                    s@.lemma_filter_contains(p, j);
                }
            }
        }
        Ok(Topic { name: s })
    }

    /// The underlying string.
    pub fn as_str(&self) -> (r: &str)
        ensures
            r@ == self@,
    {
        self.name.as_str()
    }

    /// Give up the topic and keep its name.
    pub fn into_string(self) -> (r: String)
        ensures
            r@ == self@,
    {
        self.name
    }
}


impl Clone for Topic {
    /// The clone is the same topic.
    fn clone(&self) -> (r: Self)
        ensures
            r == *self,
    {
        Topic { name: self.name.clone() }
    }
}

impl PartialEq for Topic {
    fn eq(&self, other: &Self) -> (r: bool) {
        self.name == other.name
    }
}

impl vstd::std_specs::cmp::PartialEqSpecImpl for Topic {
    open spec fn obeys_eq_spec() -> bool {
        true
    }

    open spec fn eq_spec(&self, other: &Self) -> bool {
        self@ == other@
    }
}

} // verus!

//! How requests say which encoding their body has and which one they want
//! back.

use vstd::prelude::*;
use crate::text::str_chars;

verus! {

/// The media type of protocol buffer messages.
pub open spec fn protobuf_media_type() -> Seq<char> {
    seq![
        'a', 'p', 'p', 'l', 'i', 'c', 'a', 't', 'i', 'o', 'n', '/', 'p', 'r', 'o', 't', 'o', 'b',
        'u', 'f',
    ]
}

/// Whether a header value names protocol buffers exactly
/// (`application/protobuf`); false when the header is absent.
pub fn is_protobuf(header: Option<&str>) -> (b: bool)
    ensures
        b == (header matches Some(h) && h@ == protobuf_media_type()),
{
    match header {
        Some(h) => {
            let lit = "application/protobuf";
            proof { reveal_strlit("application/protobuf"); }
            assert(lit@ =~= protobuf_media_type());
            let a = str_chars(h);
            let b = str_chars(lit);
            if a.len() != b.len() {
                return false;
            }
            let mut i: usize = 0;
            while i < a.len()
                invariant
                    a@ == h@,
                    header == Some(h),
                    b@ == protobuf_media_type(),
                    a@.len() == b@.len(),
                    i <= a@.len(),
                    forall|k: int| 0 <= k < i ==> a@[k] == b@[k],
                decreases a@.len() - i,
            {
                if a[i] != b[i] {
                    assert(a@[i as int] != b@[i as int]);
                    assert(h@ != protobuf_media_type());
                    return false;
                }
                i = i + 1;
            }
            assert(a@ =~= b@);
            true
        },
        None => false,
    }
}

/// The encoding a response is written in.
#[derive(Clone, Copy, Debug, PartialEq, Eq, Structural)]
pub enum ResponseFormat {
    Json,
    Protobuf,
}

impl ResponseFormat {
    /// Protocol buffers when the `Accept` header asks for exactly that,
    /// JSON otherwise.
    pub fn from_accept(accept: Option<&str>) -> (f: ResponseFormat)
        ensures
            f == (if accept matches Some(h) && h@ == protobuf_media_type() {
                ResponseFormat::Protobuf
            } else {
                ResponseFormat::Json
            }),
    {
        if is_protobuf(accept) {
            ResponseFormat::Protobuf
        } else {
            ResponseFormat::Json
        }
    }
}

/// A message decoded from a request body, whichever encoding it came in.
pub struct RequestMessage<M>(pub M);

impl<M> RequestMessage<M> {
    /// The message.
    pub fn into_inner(self) -> (m: M)
        ensures
            m == self.0,
    {
        self.0
    }
}

} // verus!

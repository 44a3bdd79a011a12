use vstd::prelude::*;
use vstd::utf8::encode_utf8;
use crate::codec::push_char;

verus! {

/// A credential: its text is handed out only through `revealed`, and shown
/// elsewhere as a mask of the same byte length.
#[derive(Clone, Default)]
pub struct Secret(String);

impl View for Secret {
    type V = Seq<char>;

    closed spec fn view(&self) -> Seq<char> {
        self.0@
    }
}

/// The mask of a text whose UTF-8 encoding has `n` bytes.
pub open spec fn mask(n: nat) -> Seq<char> {
    Seq::new(n, |_i: int| '*')
}

impl Secret {
    /// A secret holding `text`.
    pub fn new(text: String) -> (r: Secret)
        ensures
            r@ == text@,
    {
        Secret(text)
    }

    /// The hidden text.
    pub fn revealed(&self) -> (r: &str)
        ensures
            r@ == self@,
    {
        self.0.as_str()
    }

    /// One `*` for each byte of the hidden text.
    pub fn masked_string(&self) -> (r: String)
        ensures
            r@ == mask(encode_utf8(self@).len()),
    {
        let bytes = self.0.as_str().as_bytes();
        let n = bytes.len();
        let mut out = String::new();
        let mut i: usize = 0;
        while i < n
            invariant
                n == encode_utf8(self@).len(),
                i <= n,
                out@ == mask(i as nat),
            decreases n - i,
        {
            push_char(&mut out, '*');
            assert(out@ =~= mask((i + 1) as nat));
            i = i + 1;
        }
        out
    }
}

} // verus!

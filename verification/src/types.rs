use vstd::prelude::*;
use crate::store::Dup;

verus! {

/// A registered user: the hash of their password.
#[derive(Clone, Debug)]
pub struct User {
    pub hpass: String,
}

/// A stored image: whether anyone may view it, the user who owns it, and
/// the picture bytes themselves.
#[derive(Clone, Debug)]
pub struct Image {
    pub public: bool,
    pub owner: String,
    pub data: Vec<u8>,
}

/// What an [`Image`] denotes, field for field.
pub struct ImageView {
    pub public: bool,
    pub owner: Seq<char>,
    pub data: Seq<u8>,
}

impl View for Image {
    type V = ImageView;

    open spec fn view(&self) -> ImageView {
        ImageView { public: self.public, owner: self.owner@, data: self.data@ }
    }
}

/// An element-for-element copy of a byte vector.
fn dup_bytes(v: &Vec<u8>) -> (r: Vec<u8>)
    ensures
        r@ == v@,
{
    let mut r: Vec<u8> = Vec::new();
    let mut i: usize = 0;
    while i < v.len()
        invariant
            i <= v@.len(),
            r@ == v@.take(i as int),
        decreases v@.len() - i,
    {
        r.push(v[i]);
        i = i + 1;
    }
    proof {
        assert(v@.take(v@.len() as int) =~= v@);
    }
    r
}

impl Dup for Image {
    fn dup(&self) -> (r: Self) {
        Image { public: self.public, owner: self.owner.clone(), data: dup_bytes(&self.data) }
    }
}

/// A request to log on: the claimed user name and their password hash.
#[derive(Clone, Debug)]
pub struct LogonRequest {
    pub uname: String,
    pub hpass: String,
}

} // verus!

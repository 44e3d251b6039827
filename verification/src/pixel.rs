//! The two calls this library makes into the `image` crate.
//!
//! A color is worked on channel by channel, and `image` already has the
//! loops for that. Neither is verified here: each contract below is a claim
//! about `image`'s code, and the color algebra is proved from those claims.

use vstd::prelude::*;

verus! {

/// `image::Pixel::map` on an `image::Rgb<u8>` made of `a`: the pixel whose
/// channel at each position is `f` of the channel of `a` at that position.
/// The contract asks that `f` can be called on every channel value and
/// promises of each channel of the result only what `f` promises of its own.
#[verifier::external_body]
pub(crate) fn map_channels<F: Fn(u8) -> u8>(a: &[u8; 3], f: F) -> (r: [u8; 3])
    requires
        forall|x: u8| call_requires(f, (x,)),
    ensures
        forall|i: int| 0 <= i < 3 ==> call_ensures(f, (a@[i],), #[trigger] r@[i]),
{
    image::Pixel::map(&image::Rgb(*a), f).0
}

/// `image::Pixel::map2` on two `image::Rgb<u8>` made of `a` and `b`: the
/// pixel whose channel at each position is `f` of the channels of `a` and `b`
/// at that position, `a`'s first. The contract asks that `f` can be called on
/// every pair of channel values and promises of each channel of the result
/// only what `f` promises of its own.
#[verifier::external_body]
pub(crate) fn map2_channels<F: Fn(u8, u8) -> u8>(a: &[u8; 3], b: &[u8; 3], f: F) -> (r: [u8; 3])
    requires
        forall|x: u8, y: u8| call_requires(f, (x, y)),
    ensures
        forall|i: int| 0 <= i < 3 ==> call_ensures(f, (a@[i], b@[i]), #[trigger] r@[i]),
{
    image::Pixel::map2(&image::Rgb(*a), &image::Rgb(*b), f).0
}

} // verus!

use vstd::prelude::*;

verus! {

/// The photometric encoding that every sample of an image is declared to be in.
#[allow(non_camel_case_types)]
#[derive(Debug, Clone, Copy, PartialEq, Eq, Structural)]
pub enum ColorSpace {
    /// Display-encoded sRGB.
    sRGB,
    /// Linear light with sRGB primaries.
    sRGBLinear,
    /// RGB encoded with a flat gamma of 2.2.
    SimplesRGB,
    /// DisplayP3: wide-gamut primaries with the sRGB transfer curve.
    DisplayP3,
    /// No photometric meaning: values are used as they are.
    AsIs,
}

/// One stage of a color conversion. Every conversion goes through linear light
/// with sRGB primaries, the reference space.
#[derive(Debug, Clone, Copy, PartialEq, Eq, Structural)]
pub enum Step {
    /// The sRGB curve, display-encoded to linear.
    DecodeSrgb,
    /// The sRGB curve, linear to display-encoded.
    EncodeSrgb,
    /// The flat 2.2 gamma curve, encoded to linear.
    DecodeGamma,
    /// The flat 2.2 gamma curve, linear to encoded.
    EncodeGamma,
    /// The gamut matrix from linear DisplayP3 primaries to the reference space.
    P3ToReference,
    /// The gamut matrix from the reference space to linear DisplayP3 primaries.
    ReferenceToP3,
}

/// The stages that take a color space to the reference space.
pub open spec fn decode_steps(c: ColorSpace) -> Seq<Step> {
    match c {
        ColorSpace::sRGB => seq![Step::DecodeSrgb],
        ColorSpace::sRGBLinear => seq![],
        ColorSpace::SimplesRGB => seq![Step::DecodeGamma],
        ColorSpace::DisplayP3 => seq![Step::DecodeSrgb, Step::P3ToReference],
        ColorSpace::AsIs => seq![],
    }
}

/// The stages that take the reference space to a color space.
pub open spec fn encode_steps(c: ColorSpace) -> Seq<Step> {
    match c {
        ColorSpace::sRGB => seq![Step::EncodeSrgb],
        ColorSpace::sRGBLinear => seq![],
        ColorSpace::SimplesRGB => seq![Step::EncodeGamma],
        ColorSpace::DisplayP3 => seq![Step::ReferenceToP3, Step::EncodeSrgb],
        ColorSpace::AsIs => seq![],
    }
}

/// A conversion changes no value when both ends are the same space or when
/// either end is `AsIs`.
pub open spec fn is_passthrough(from: ColorSpace, to: ColorSpace) -> bool {
    from == to || from == ColorSpace::AsIs || to == ColorSpace::AsIs
}

/// The stages of a conversion: decode the source, then encode the target.
pub open spec fn plan(from: ColorSpace, to: ColorSpace) -> Seq<Step> {
    if is_passthrough(from, to) {
        seq![]
    } else {
        decode_steps(from) + encode_steps(to)
    }
}

fn push_decode_steps(c: ColorSpace, v: &mut Vec<Step>)
    ensures
        final(v)@ == old(v)@ + decode_steps(c),
{
    match c {
        ColorSpace::sRGB => v.push(Step::DecodeSrgb),
        ColorSpace::SimplesRGB => v.push(Step::DecodeGamma),
        ColorSpace::DisplayP3 => {
            v.push(Step::DecodeSrgb);
            v.push(Step::P3ToReference);
        },
        _ => {},
    }
    proof {
        assert(final(v)@ =~= old(v)@ + decode_steps(c));
    }
}

fn push_encode_steps(c: ColorSpace, v: &mut Vec<Step>)
    ensures
        final(v)@ == old(v)@ + encode_steps(c),
{
    match c {
        ColorSpace::sRGB => v.push(Step::EncodeSrgb),
        ColorSpace::SimplesRGB => v.push(Step::EncodeGamma),
        ColorSpace::DisplayP3 => {
            v.push(Step::ReferenceToP3);
            v.push(Step::EncodeSrgb);
        },
        _ => {},
    }
    proof {
        assert(final(v)@ =~= old(v)@ + encode_steps(c));
    }
}

/// The stages that convert samples encoded in `from` to samples encoded in `to`.
pub fn conversion_plan(from: ColorSpace, to: ColorSpace) -> (r: Vec<Step>)
    ensures
        r@ == plan(from, to),
{
    let mut v: Vec<Step> = Vec::new();
    if from == to || from == ColorSpace::AsIs || to == ColorSpace::AsIs {
        proof {
            assert(v@ =~= plan(from, to));
        }
        return v;
    }
    push_decode_steps(from, &mut v);
    push_encode_steps(to, &mut v);
    proof {
        assert(v@ =~= plan(from, to));
    }
    v
}

/// Converting a space to itself, or to or from `AsIs`, has no stages.
pub proof fn lemma_identity_conversions(c: ColorSpace)
    ensures
        plan(c, c).len() == 0,
        plan(c, ColorSpace::AsIs).len() == 0,
        plan(ColorSpace::AsIs, c).len() == 0,
{
}

} // verus!

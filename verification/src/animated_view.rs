//! The card that flips: the targets its springs are sent toward.
use vstd::prelude::*;

verus! {

/// The targets of the four springs of the flipping card: the opacity and the
/// transform of its front and of its back.
pub struct FlipTargets {
    pub opacity: String,
    pub opacity_opposite: String,
    pub transform: String,
    pub transform_opposite: String,
}

/// The transform that tilts a card by `angle` degrees about its horizontal axis.
pub open spec fn tilt(angle: Seq<char>) -> Seq<char> {
    "perspective(600px) rotateX("@ + angle + "deg)"@
}

fn tilt_text(angle: &str) -> (r: String)
    ensures
        r@ == tilt(angle@),
{
    let prefix = "perspective(600px) rotateX(";
    let suffix = "deg)";
    let mut r = prefix.to_owned();
    r.append(angle);
    r.append(suffix);
    r
}

fn pick(flag: bool, when_set: &'static str, otherwise: &'static str) -> (r: String)
    ensures
        r@ == if flag { when_set@ } else { otherwise@ },
{
    if flag { when_set.to_owned() } else { otherwise.to_owned() }
}

/// The targets of the card's springs: flipped, the front fades out and turns
/// to 180 degrees while the back fades in and turns to 0; otherwise the front
/// fades in and turns to 360 degrees while the back fades out and turns to 180.
pub fn flip_targets(flipped: bool) -> (r: FlipTargets)
    ensures
        r.opacity@ == if flipped { "0.0"@ } else { "1.0"@ },
        r.opacity_opposite@ == if flipped { "1.0"@ } else { "0.0"@ },
        r.transform@ == tilt(if flipped { "180.0"@ } else { "360.0"@ }),
        r.transform_opposite@ == tilt(if flipped { "0.0"@ } else { "180.0"@ }),
{
    let opacity = pick(flipped, "0.0", "1.0");
    let opacity_opposite = pick(flipped, "1.0", "0.0");
    let angle = pick(flipped, "180.0", "360.0");
    let angle_opposite = pick(flipped, "0.0", "180.0");
    FlipTargets {
        opacity,
        opacity_opposite,
        transform: tilt_text(angle.as_str()),
        transform_opposite: tilt_text(angle_opposite.as_str()),
    }
}

} // verus!

//! The application's model and messages.
use vstd::prelude::*;

verus! {

/// The model of the application: it holds nothing, all state lives with the
/// components.
#[derive(Clone, Copy, PartialEq, Eq, Structural, Debug)]
pub struct Model {}

impl Default for Model {
    fn default() -> (r: Self)
        ensures
            r == (Model {}),
    {
        Model {}
    }
}

/// The messages of the application.
#[derive(Clone, Copy, PartialEq, Eq, Structural, Debug)]
pub enum Msg {
    AnimationComplete,
    DoNothing,
}

impl Default for Msg {
    fn default() -> (r: Self)
        ensures
            r == Msg::DoNothing,
    {
        Msg::DoNothing
    }
}

/// No address maps to a message.
pub fn routes() -> (r: Option<Msg>)
    ensures
        r is None,
{
    None
}

/// Handles a message: the model is left as it is; the line to log, if any,
/// is returned.
pub fn update(msg: Msg, model: &mut Model) -> (log_line: Option<&'static str>)
    ensures
        *final(model) == *old(model),
        match msg {
            Msg::AnimationComplete => log_line is Some && log_line->0@ == "Animation complete callback seed!"@,
            Msg::DoNothing => log_line is None,
        },
{
    match msg {
        Msg::AnimationComplete => {
            let line = "Animation complete callback seed!";
            proof {
                reveal_strlit("Animation complete callback seed!");
            }
            Some(line)
        },
        Msg::DoNothing => None,
    }
}

} // verus!

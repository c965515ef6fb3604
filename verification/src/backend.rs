//! Window managers that can open a window at a place.

use crate::hyprland::{dispatch_args, sized_payload, sized_rules};
use crate::stroke::Bbox;
use crate::text::decimal;
use vstd::prelude::*;

verus! {

/// A window manager that opens floating windows.
pub trait WmBackend {
    /// The arguments that its control program is run with to open a window of `cmd` in `bbox`.
    spec fn opens(&self, cmd: Seq<char>, bbox: Bbox, args: Seq<String>) -> bool;

    /// The arguments that its control program is run with to open a window of `cmd` in `bbox`.
    fn spawn_floating(&self, cmd: &str, bbox: Bbox) -> (r: Vec<String>)
        ensures
            self.opens(cmd@, bbox, r@),
    ;
}

/// Hyprland, whose control program is `hyprctl`.
#[derive(Debug, Clone, Copy)]
pub struct Hyprland;

impl WmBackend for Hyprland {
    /// The window gets the place and the size of the box.
    open spec fn opens(&self, cmd: Seq<char>, bbox: Bbox, args: Seq<String>) -> bool {
        dispatch_args(args, sized_rules(bbox) + cmd)
    }

    fn spawn_floating(&self, cmd: &str, bbox: Bbox) -> (r: Vec<String>) {
        let mut args: Vec<String> = Vec::new();
        args.push("dispatch".to_owned());
        args.push("exec".to_owned());
        args.push(sized_payload(cmd, bbox));
        args
    }
}

/// What is said where no window manager is known.
pub open spec fn no_backend() -> Seq<char> {
    "no supported backend (set HYPRLAND_INSTANCE_SIGNATURE); more backends coming in later milestones"@
}

/// The window manager of the session: Hyprland where the session has its signature.
pub fn detect(has_signature: bool) -> (r: Result<Hyprland, String>)
    ensures
        r is Ok <==> has_signature,
        r matches Err(m) ==> m@ == no_backend(),
{
    if has_signature {
        return Ok(Hyprland);
    }
    Err("no supported backend (set HYPRLAND_INSTANCE_SIGNATURE); more backends coming in later milestones".to_owned())
}

/// Hyprland's control program is asked to dispatch the command with the place and the size of the
/// box; the place is no further left or up than the corner of the screen.
pub proof fn hyprland_is_told_place_and_size(cmd: Seq<char>, b: Bbox, args: Seq<String>)
    ensures
        Hyprland.opens(cmd, b, args) <==> {
            let x = decimal((if b.x < 0 {
                0
            } else {
                b.x as int
            }) as nat);
            let y = decimal((if b.y < 0 {
                0
            } else {
                b.y as int
            }) as nat);
            &&& args.len() == 3
            &&& args[0]@ == "dispatch"@
            &&& args[1]@ == "exec"@
            &&& args[2]@ == "[float;move "@ + x + " "@ + y + ";size "@ + decimal(b.w as nat) + " "@
                + decimal(b.h as nat) + "] "@ + cmd
        },
{
}

} // verus!

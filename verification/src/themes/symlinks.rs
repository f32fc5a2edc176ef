//! The names under which X11 looks for each role. The first name of a list is
//! the file that is written; the others are links to it.

use crate::themes::theme::CursorType;
use vstd::prelude::*;

verus! {

/// The texts of a list of names.
pub open spec fn names_view(names: Seq<&'static str>) -> Seq<Seq<char>> {
    Seq::new(names.len(), |i: int| names[i]@)
}

/// The names of a role, the file's name first.
pub open spec fn spec_symlinks(cursor_type: CursorType) -> Seq<Seq<char>> {
    match cursor_type {
        CursorType::Arrow => seq!["arrow"@, "default"@, "left_ptr"@, "top_left_arrow"@],
        CursorType::Hand => seq![
            "alias"@,
            "dnd-link"@,
            "hand"@,
            "hand1"@,
            "hand2"@,
            "link"@,
            "openhand"@,
            "pointer"@,
            "pointing_hand"@,
            "3085a0e285430894940527032f8b26df"@,
            "640fb0e74195791501fd1ed57b41487f"@,
            "9d800788f1b08800ae810202380a0822"@,
            "a2a266d0498c3104214a47bd64ab0fc8"@,
            "b66166c04f8c3109214a4fbd64a50fc8"@,
            "e29285e634086352946a0e7090d73106"@,
        ],
        CursorType::Watch => seq!["wait"@, "watch"@],
        CursorType::LeftPtrWatch => seq![
            "half-busy"@,
            "left_ptr_watch"@,
            "progress"@,
            "00000000000000020006000e7e9ffc3f"@,
            "08e8e1c95fe2fc01f976f1e063a24ccd"@,
            "3ecb610c1bf2410f44200f48c40d3599"@,
        ],
        CursorType::Help => seq![
            "dnd-ask"@,
            "help"@,
            "left_ptr_help"@,
            "question_arrow"@,
            "whats_this"@,
            "5c6cd98b3f3ebcb1f9c7f1c204630408"@,
            "d9ce0ab605698f320427677b458ad60b"@,
        ],
        CursorType::Text => seq!["ibeam"@, "text"@, "xterm"@, "vertical-text"@],
        CursorType::Pencil => seq!["draft"@, "pencil"@],
        CursorType::Crosshair => seq![
            "cell"@,
            "color-picker"@,
            "cross_reverse"@,
            "cross"@,
            "crosshair"@,
            "diamond_cross"@,
            "plus"@,
            "tcross"@,
        ],
        CursorType::Forbidden => seq![
            "circle"@,
            "crossed_circle"@,
            "dnd-no-drop"@,
            "forbidden"@,
            "not-allowed"@,
            "no-drop"@,
            "pirate"@,
            "03b6e0fcb3499374a867c041f52298f0"@,
        ],
        CursorType::NsResize => seq![
            "top_side"@,
            "bottom_side"@,
            "n-resize"@,
            "ns-resize"@,
            "row-resize"@,
            "s-resize"@,
            "sb_v_double_arrow"@,
            "size_ver"@,
            "split_v"@,
            "v_double_arrow"@,
            "00008160000006810000408080010102"@,
            "2870a09082c103050810ffdffffe0204"@,
        ],
        CursorType::EwResize => seq![
            "col-resize"@,
            "down-arrow"@,
            "e-resize"@,
            "ew-resize"@,
            "h_double_arrow"@,
            "left_side"@,
            "left-arrow"@,
            "right_side"@,
            "right-arrow"@,
            "sb_h_double_arrow"@,
            "size_hor"@,
            "split_h"@,
            "w-resize"@,
            "14fef782d02440884392942c11205230"@,
            "028006030e0e7ebffc7f7070c0600140"@,
        ],
        CursorType::NwseResize => seq![
            "bottom_right_corner"@,
            "nw-resize"@,
            "nwse-resize"@,
            "se-resize"@,
            "size_fdiag"@,
            "top_left_corner"@,
            "ul_angle"@,
            "c7088f0f3e6c8088236ef8e1e3e70000"@,
        ],
        CursorType::NeswResize => seq![
            "bd_double_arrow"@,
            "bottom_left_corner"@,
            "fd_double_arrow"@,
            "ne-resize"@,
            "nesw-resize"@,
            "size_bdiag"@,
            "sw-resize"@,
            "top_right_corner"@,
            "ur_angle"@,
            "fcf1c3c7cd4491d801f1e1c78f100000"@,
        ],
        CursorType::Move => seq![
            "size_all"@,
            "all-scroll"@,
            "closedhand"@,
            "dnd-move"@,
            "dnd-none"@,
            "fleur"@,
            "grab"@,
            "grabbing"@,
            "move"@,
            "4498f0e0c1937ffe01fd06f973665830"@,
            "9081237383d90e509aa00f00170e968f"@,
        ],
        CursorType::CenterPtr => seq![
            "up_arrow"@,
            "right_ptr"@,
            "draft_large"@,
            "draft_small"@,
            "up-arrow"@,
            "center_ptr"@,
        ],
    }
}

/// The names of a role: the first is the name of the cursor's file, the
/// others are the names of the links that point to it.
#[verifier::rlimit(50)]
pub fn get_symlinks(cursor_type: &CursorType) -> (r: Vec<&'static str>)
    ensures
        names_view(r@) == spec_symlinks(*cursor_type),
        r.len() >= 2,
{
    let r = match cursor_type {
        CursorType::Arrow => vec!["arrow", "default", "left_ptr", "top_left_arrow"],
        CursorType::Hand => vec![
            "alias",
            "dnd-link",
            "hand",
            "hand1",
            "hand2",
            "link",
            "openhand",
            "pointer",
            "pointing_hand",
            "3085a0e285430894940527032f8b26df",
            "640fb0e74195791501fd1ed57b41487f",
            "9d800788f1b08800ae810202380a0822",
            "a2a266d0498c3104214a47bd64ab0fc8",
            "b66166c04f8c3109214a4fbd64a50fc8",
            "e29285e634086352946a0e7090d73106",
        ],
        CursorType::Watch => vec!["wait", "watch"],
        CursorType::LeftPtrWatch => vec![
            "half-busy",
            "left_ptr_watch",
            "progress",
            "00000000000000020006000e7e9ffc3f",
            "08e8e1c95fe2fc01f976f1e063a24ccd",
            "3ecb610c1bf2410f44200f48c40d3599",
        ],
        CursorType::Help => vec![
            "dnd-ask",
            "help",
            "left_ptr_help",
            "question_arrow",
            "whats_this",
            "5c6cd98b3f3ebcb1f9c7f1c204630408",
            "d9ce0ab605698f320427677b458ad60b",
        ],
        CursorType::Text => vec!["ibeam", "text", "xterm", "vertical-text"],
        CursorType::Pencil => vec!["draft", "pencil"],
        CursorType::Crosshair => vec![
            "cell",
            "color-picker",
            "cross_reverse",
            "cross",
            "crosshair",
            "diamond_cross",
            "plus",
            "tcross",
        ],
        CursorType::Forbidden => vec![
            "circle",
            "crossed_circle",
            "dnd-no-drop",
            "forbidden",
            "not-allowed",
            "no-drop",
            "pirate",
            "03b6e0fcb3499374a867c041f52298f0",
        ],
        CursorType::NsResize => vec![
            "top_side",
            "bottom_side",
            "n-resize",
            "ns-resize",
            "row-resize",
            "s-resize",
            "sb_v_double_arrow",
            "size_ver",
            "split_v",
            "v_double_arrow",
            "00008160000006810000408080010102",
            "2870a09082c103050810ffdffffe0204",
        ],
        CursorType::EwResize => vec![
            "col-resize",
            "down-arrow",
            "e-resize",
            "ew-resize",
            "h_double_arrow",
            "left_side",
            "left-arrow",
            "right_side",
            "right-arrow",
            "sb_h_double_arrow",
            "size_hor",
            "split_h",
            "w-resize",
            "14fef782d02440884392942c11205230",
            "028006030e0e7ebffc7f7070c0600140",
        ],
        CursorType::NwseResize => vec![
            "bottom_right_corner",
            "nw-resize",
            "nwse-resize",
            "se-resize",
            "size_fdiag",
            "top_left_corner",
            "ul_angle",
            "c7088f0f3e6c8088236ef8e1e3e70000",
        ],
        CursorType::NeswResize => vec![
            "bd_double_arrow",
            "bottom_left_corner",
            "fd_double_arrow",
            "ne-resize",
            "nesw-resize",
            "size_bdiag",
            "sw-resize",
            "top_right_corner",
            "ur_angle",
            "fcf1c3c7cd4491d801f1e1c78f100000",
        ],
        CursorType::Move => vec![
            "size_all",
            "all-scroll",
            "closedhand",
            "dnd-move",
            "dnd-none",
            "fleur",
            "grab",
            "grabbing",
            "move",
            "4498f0e0c1937ffe01fd06f973665830",
            "9081237383d90e509aa00f00170e968f",
        ],
        CursorType::CenterPtr => vec![
            "up_arrow",
            "right_ptr",
            "draft_large",
            "draft_small",
            "up-arrow",
            "center_ptr",
        ],
    };
    assert(names_view(r@) =~= spec_symlinks(*cursor_type));
    r
}

} // verus!

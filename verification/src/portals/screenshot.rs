//! The Screenshot portal: the capture target, the `grim` command line and
//! the colour picked.
use crate::picker::PickerReply;
use crate::text::{chars_of, concat, decimal, decimal_string, is_ascii_seq, trim, trim_str};
use crate::theme::{byte_len, char_boundary, byte_facts, hex_body, hex_byte, rgb_of};
use vstd::prelude::*;

verus! {

pub const TARGET_SCREEN: u32 = 1;

pub const TARGET_AREA: u32 = 4;

pub const TARGET_ACTIVE: u32 = 8;

/// The capture targets offered: the screen, an area and the active window.
pub fn available_targets() -> (out: u32)
    ensures
        out == 13,
{
    let out = TARGET_SCREEN | TARGET_AREA | TARGET_ACTIVE;
    proof {
        assert(1u32 | 4u32 | 8u32 == 13u32) by (bit_vector);
    }
    out
}

/// The target to capture, or `None` when the request is cancelled: an
/// interactive request takes the dialog's non-zero answer; otherwise the
/// requested target, the whole screen by default.
pub fn screenshot_target(interactive: bool, reply: Option<PickerReply>, requested: Option<u32>) -> (out: Option<u32>)
    ensures
        interactive ==> out == match reply {
            Some(PickerReply::Screenshot { target }) => if target != 0 {
                Some(target)
            } else {
                None
            },
            _ => None,
        },
        !interactive ==> out == Some(
            match requested {
                Some(t) => t,
                None => TARGET_SCREEN,
            },
        ),
{
    if interactive {
        match reply {
            Some(PickerReply::Screenshot { target }) => if target != 0 {
                Some(target)
            } else {
                None
            },
            _ => None,
        }
    } else {
        match requested {
            Some(t) => Some(t),
            None => Some(TARGET_SCREEN),
        }
    }
}

/// Where the region to capture comes from.
#[derive(Clone, Copy, Debug, PartialEq, Eq, Structural)]
pub enum RegionSource {
    /// The whole screen.
    Screen,
    /// An area the user selects with `slurp`.
    SelectArea,
    /// The active window's geometry.
    ActiveWindow,
}

/// Where the region for a target comes from.
pub fn region_source(target: u32) -> (out: RegionSource)
    ensures
        out == if target == TARGET_AREA {
            RegionSource::SelectArea
        } else if target == TARGET_ACTIVE {
            RegionSource::ActiveWindow
        } else {
            RegionSource::Screen
        },
{
    if target == TARGET_AREA {
        RegionSource::SelectArea
    } else if target == TARGET_ACTIVE {
        RegionSource::ActiveWindow
    } else {
        RegionSource::Screen
    }
}

/// The arguments of `grim`: `-g <geometry>` for a region, then the output
/// path.
pub fn grim_args(geometry: Option<&str>, path: &str) -> (out: Vec<String>)
    ensures
        out@.map_values(|s: String| s@) == match geometry {
            Some(g) => seq!["-g"@, g@, path@],
            None => seq![path@],
        },
{
    let mut out: Vec<String> = Vec::new();
    match geometry {
        Some(g) => {
            out.push("-g".to_owned());
            out.push(g.to_owned());
        },
        None => {},
    }
    out.push(path.to_owned());
    proof {
        assert(out@.map_values(|s: String| s@) =~= match geometry {
            Some(g) => seq!["-g"@, g@, path@],
            None => seq![path@],
        });
    }
    out
}

/// The file name of a screenshot taken at `stamp` (`%Y%m%d_%H%M%S`).
pub fn screenshot_file_name(stamp: &str) -> (out: String)
    ensures
        out@ == "Screenshot_"@ + stamp@ + ".png"@,
{
    let a = concat("Screenshot_", stamp);
    concat(a.as_str(), ".png")
}

/// The area `slurp` printed, trimmed; `None` when empty.
pub fn selected_area(output: &str) -> (out: Option<String>)
    ensures
        match out {
            Some(g) => g@ == trim(output@) && g@.len() > 0,
            None => trim(output@).len() == 0,
        },
{
    let g = trim_str(output);
    if g.as_str().is_empty() {
        None
    } else {
        Some(g)
    }
}

/// A signed integer in decimal.
pub open spec fn signed_decimal(n: int) -> Seq<char> {
    if n < 0 {
        "-"@ + decimal((-n) as nat)
    } else {
        decimal(n as nat)
    }
}

fn signed_string(n: i64) -> (out: String)
    ensures
        out@ == signed_decimal(n as int),
{
    if n < 0 {
        let m: u64 = ((-(n + 1)) as u64) + 1;
        let d = decimal_string(m);
        concat("-", d.as_str())
    } else {
        decimal_string(n as u64)
    }
}

/// A window's geometry as `grim -g` reads it: `x,y wxh`.
pub fn geometry_text(x: i64, y: i64, w: i64, h: i64) -> (out: String)
    ensures
        out@ == signed_decimal(x as int) + ","@ + signed_decimal(y as int) + " "@ + signed_decimal(
            w as int,
        ) + "x"@ + signed_decimal(h as int),
{
    let sx = signed_string(x);
    let sy = signed_string(y);
    let sw = signed_string(w);
    let sh = signed_string(h);
    let a = concat(sx.as_str(), ",");
    let b = concat(a.as_str(), sy.as_str());
    let c = concat(b.as_str(), " ");
    let d = concat(c.as_str(), sw.as_str());
    let e = concat(d.as_str(), "x");
    concat(e.as_str(), sh.as_str())
}

/// Inputs the colour reader can slice: at least six bytes after the `'#'`
/// split into pieces at bytes 2, 4 and 6.
pub open spec fn color_sliceable(input: Seq<char>) -> bool {
    let h = hex_body(input);
    byte_len(h) >= 6 ==> char_boundary(h, 2) && char_boundary(h, 4) && char_boundary(h, 6)
}

/// The colour `hyprpicker` printed as `#rrggbb` (or `rrggbb`); anything
/// after the sixth digit is ignored.
pub open spec fn picked_color_spec(input: Seq<char>) -> Option<(u8, u8, u8)> {
    let h = hex_body(input);
    if byte_len(h) < 6 || h.len() < 6 || !is_ascii_seq(h.take(6)) {
        None
    } else {
        rgb_of(hex_byte(h.subrange(0, 2)), hex_byte(h.subrange(2, 4)), hex_byte(h.subrange(4, 6)))
    }
}

/// Whether the colour reader can read `input` without slicing inside a
/// character.
pub fn color_input_sliceable(input: &str) -> (out: bool)
    ensures
        out == color_sliceable(input@),
{
    let t = trim_str(input);
    let body = crate::text::trim_start_char_str(t.as_str(), '#');
    let v = chars_of(body.as_str());
    let (n, at2, at4, at6) = byte_facts(&v);
    if n < 6 {
        return true;
    }
    at2 && at4 && at6
}

/// The red, green and blue bytes of the colour picked.
pub fn parse_hex_color(input: &str) -> (out: Option<(u8, u8, u8)>)
    requires
        color_sliceable(input@),
    ensures
        out == picked_color_spec(input@),
{
    let t = trim_str(input);
    let body = crate::text::trim_start_char_str(t.as_str(), '#');
    let v = chars_of(body.as_str());
    let (n, _, _, _) = byte_facts(&v);
    if n < 6 || v.len() < 6 {
        return None;
    }
    let mut i: usize = 0;
    while i < 6
        invariant
            i <= 6,
            v.len() >= 6,
            v@ == hex_body(input@),
            forall|k: int| 0 <= k < i ==> (v@[k] as u32) < 128,
        decreases 6 - i,
    {
        if (v[i] as u32) >= 128 {
            proof {
                assert(!is_ascii_seq(v@.take(6))) by {
                    assert(v@.take(6)[i as int] == v@[i as int]);
                }
            }
            return None;
        }
        i += 1;
    }
    proof {
        assert(is_ascii_seq(v@.take(6))) by {
            assert forall|k: int| 0 <= k < 6 implies (#[trigger] v@.take(6)[k] as u32) < 128 by {
                assert(v@.take(6)[k] == v@[k]);
            }
        }
        assert(v@.subrange(0, 2) =~= seq![v@[0], v@[1]]);
        assert(v@.subrange(2, 4) =~= seq![v@[2], v@[3]]);
        assert(v@.subrange(4, 6) =~= seq![v@[4], v@[5]]);
    }
    let r = crate::theme::hex_pair(v[0], v[1]);
    let g = crate::theme::hex_pair(v[2], v[3]);
    let b = crate::theme::hex_pair(v[4], v[5]);
    match (r, g, b) {
        (Some(x), Some(y), Some(z)) => Some((x, y, z)),
        _ => None,
    }
}

} // verus!

//! Where windows were left, and where they are put back.
use crate::monitors;
use crate::monitors::Monitor;
use crate::text;
use vstd::prelude::*;
use vstd::string::*;
#[allow(unused_imports)]
use vstd::utf8::*;

verus! {

/// Coordinates up to here are those of a minimised window.
pub const MINIMISED: i32 = -10_000;

/// How far outside a screen a window may start.
pub const MARGIN: i32 = 64;

/// The name of the setting that holds a measure of a window.
pub open spec fn setting_name(label: Seq<char>, field: Seq<char>) -> Seq<char> {
    "window."@ + label + "."@ + field
}

/// The name of the setting that holds a measure of a window.
pub fn window_setting(label: &str, field: &str) -> (r: String)
    ensures
        r@ == setting_name(label@, field@),
{
    let mut r = "window.".to_owned();
    r.append(label);
    r.append(".");
    r.append(field);
    r
}

/// The text of a setting.
pub open spec fn setting_text(s: Option<&str>) -> Option<Seq<char>> {
    match s {
        Some(t) => Some(t@),
        None => None,
    }
}

/// The measure that a setting holds, white space aside.
pub open spec fn measure(s: Option<Seq<char>>) -> Option<int> {
    match s {
        Some(t) => text::i32_text(text::trimmed(t)),
        None => None,
    }
}

/// The measure that a setting holds.
fn read_measure(s: Option<&str>) -> (r: Option<i32>)
    ensures
        match r {
            Some(v) => measure(setting_text(s)) == Some(v as int),
            None => measure(setting_text(s)) is None,
        },
{
    match s {
        Some(t) => text::parse_i32(text::trim(t)),
        None => None,
    }
}

/// Whether a window that starts at the point can be seen on the screen.
pub open spec fn seen_on(m: Monitor, x: int, y: int) -> bool {
    &&& x >= m.x.wrapping_sub(MARGIN)
    &&& x < monitors::end_of(m.x, m.width)
    &&& y >= m.y.wrapping_sub(MARGIN)
    &&& y < monitors::end_of(m.y, m.height)
}

/// Whether a window that starts at the point can be seen on any screen.
pub open spec fn on_screen(ms: Seq<Monitor>, x: int, y: int) -> bool {
    exists|i: int| 0 <= i < ms.len() && seen_on(#[trigger] ms[i], x, y)
}

/// The size of a window.
#[derive(Debug, Clone, Copy, PartialEq, Eq, Structural)]
pub struct WindowSize {
    pub width: u32,
    pub height: u32,
}

/// Where a window is put back, and at what size.
#[derive(Debug, Clone, Copy, PartialEq, Eq, Structural)]
pub struct Geometry {
    pub x: i32,
    pub y: i32,
    pub size: Option<WindowSize>,
}

/// Where a window is put back: where it was left, unless it was minimised then or its screen is
/// gone. Sizes too small to use are not put back.
pub open spec fn restored(
    x: Option<Seq<char>>,
    y: Option<Seq<char>>,
    w: Option<Seq<char>>,
    h: Option<Seq<char>>,
    ms: Seq<Monitor>,
) -> Option<Geometry> {
    match (measure(x), measure(y)) {
        (Some(x), Some(y)) if x > MINIMISED && y > MINIMISED && on_screen(ms, x, y) => Some(
            Geometry {
                x: x as i32,
                y: y as i32,
                size: match (measure(w), measure(h)) {
                    (Some(w), Some(h)) if w > 200 && h > 150 => Some(
                        WindowSize { width: w as u32, height: h as u32 },
                    ),
                    _ => None,
                },
            },
        ),
        _ => None,
    }
}

fn any_screen(ms: &Vec<Monitor>, x: i32, y: i32) -> (r: bool)
    ensures
        r == on_screen(ms@, x as int, y as int),
{
    let mut i: usize = 0;
    while i < ms.len()
        invariant
            i <= ms@.len(),
            forall|k: int| 0 <= k < i ==> !seen_on(#[trigger] ms@[k], x as int, y as int),
        decreases ms@.len() - i,
    {
        let m = &ms[i];
        let right: i32 = m.x.wrapping_add(m.width as i32);
        let bottom: i32 = m.y.wrapping_add(m.height as i32);
        if x >= m.x.wrapping_sub(MARGIN) && x < right && y >= m.y.wrapping_sub(MARGIN) && y
            < bottom {
            assert(seen_on(ms@[i as int], x as int, y as int));
            return true;
        }
        i += 1;
    }
    false
}

/// Where a window is put back.
pub fn restore_window_geometry(
    x: Option<&str>,
    y: Option<&str>,
    w: Option<&str>,
    h: Option<&str>,
    ms: &Vec<Monitor>,
) -> (r: Option<Geometry>)
    ensures
        r == restored(
            setting_text(x),
            setting_text(y),
            setting_text(w),
            setting_text(h),
            ms@,
        ),
{
    let (x, y) = match (read_measure(x), read_measure(y)) {
        (Some(x), Some(y)) => (x, y),
        _ => {
            return None;
        },
    };
    if x <= MINIMISED || y <= MINIMISED {
        return None;
    }
    if !any_screen(ms, x, y) {
        return None;
    }
    let size = match (read_measure(w), read_measure(h)) {
        (Some(w), Some(h)) => if w > 200 && h > 150 {
            Some(WindowSize { width: w as u32, height: h as u32 })
        } else {
            None
        },
        _ => None,
    };
    Some(Geometry { x, y, size })
}

/// A point on the desktop.
#[derive(Debug, Clone, Copy, PartialEq, Eq, Structural)]
pub struct Point {
    pub x: i32,
    pub y: i32,
}

/// Where the overlay is put back: where it was left, unless it was minimised then.
pub open spec fn overlay_position(x: Option<Seq<char>>, y: Option<Seq<char>>) -> Option<Point> {
    match (x, y) {
        (Some(x), Some(y)) => match (text::i32_text(x), text::i32_text(y)) {
            (Some(x), Some(y)) if x > MINIMISED && y > MINIMISED => Some(
                Point { x: x as i32, y: y as i32 },
            ),
            _ => None,
        },
        _ => None,
    }
}

/// Where the overlay is put back.
pub fn restore_overlay_position(x: Option<&str>, y: Option<&str>) -> (r: Option<Point>)
    ensures
        r == overlay_position(setting_text(x), setting_text(y)),
{
    match (x, y) {
        (Some(x), Some(y)) => match (text::parse_i32(x), text::parse_i32(y)) {
            (Some(x), Some(y)) => if x > MINIMISED && y > MINIMISED {
                Some(Point { x, y })
            } else {
                None
            },
            _ => None,
        },
        _ => None,
    }
}

/// Two measures as they are kept.
#[derive(Debug)]
pub struct Measures {
    pub first: String,
    pub second: String,
}

/// A position as it is kept; nothing of a minimised window.
pub fn position_to_keep(x: i32, y: i32) -> (r: Option<Measures>)
    ensures
        r is Some <==> x > MINIMISED && y > MINIMISED,
        r matches Some(m) ==> m.first@ == text::decimal(x as int) && m.second@ == text::decimal(
            y as int,
        ),
{
    if x > MINIMISED && y > MINIMISED {
        Some(
            Measures {
                first: text::decimal_of_i64(x as i64),
                second: text::decimal_of_i64(y as i64),
            },
        )
    } else {
        None
    }
}

/// A size as it is kept; nothing of a window too small to be one.
pub fn size_to_keep(width: u32, height: u32) -> (r: Option<Measures>)
    ensures
        r is Some <==> width > 100 && height > 100,
        r matches Some(m) ==> m.first@ == text::decimal(width as int) && m.second@
            == text::decimal(height as int),
{
    if width > 100 && height > 100 {
        Some(
            Measures {
                first: text::decimal_of_u64(width as u64),
                second: text::decimal_of_u64(height as u64),
            },
        )
    } else {
        None
    }
}

proof fn lemma_nothing_to_trim(s: Seq<char>)
    requires
        forall|i: int| 0 <= i < s.len() ==> !text::white_space(#[trigger] s[i]),
    ensures
        text::trimmed(s) == s,
{
    if s.len() > 0 {
        assert(!text::white_space(s[0]));
        assert(!text::white_space(s[s.len() - 1]));
    }
}

/// A measure that was kept is read back.
pub proof fn lemma_measure_of_decimal(n: int)
    requires
        i32::MIN <= n <= i32::MAX,
    ensures
        measure(Some(text::decimal(n))) == Some(n),
        text::i32_text(text::decimal(n)) == Some(n),
{
    text::lemma_decimal_chars(n);
    let s = text::decimal(n);
    assert forall|i: int| 0 <= i < s.len() implies !text::white_space(#[trigger] s[i]) by {
        assert(s[i] == '-' || ('0' <= s[i] && s[i] <= '9'));
    }
    lemma_nothing_to_trim(s);
    text::law_decimal_is_read_back(n);
}

/// A window is put back where it was left, as long as it was not minimised and a screen is still
/// there; and at the size it had, as long as that is one to use.
pub proof fn law_windows_are_put_back_where_they_were(
    x: i32,
    y: i32,
    width: u32,
    height: u32,
    ms: Seq<Monitor>,
)
    requires
        x > MINIMISED,
        y > MINIMISED,
        200 < width <= i32::MAX,
        150 < height <= i32::MAX,
        on_screen(ms, x as int, y as int),
    ensures
        restored(
            Some(text::decimal(x as int)),
            Some(text::decimal(y as int)),
            Some(text::decimal(width as int)),
            Some(text::decimal(height as int)),
            ms,
        ) == Some(Geometry { x, y, size: Some(WindowSize { width, height }) }),
        overlay_position(Some(text::decimal(x as int)), Some(text::decimal(y as int))) == Some(
            Point { x, y },
        ),
{
    lemma_measure_of_decimal(x as int);
    lemma_measure_of_decimal(y as int);
    lemma_measure_of_decimal(width as int);
    lemma_measure_of_decimal(height as int);
}

/// The screen that the details window was left on: none where it was switched off.
pub open spec fn details_screen(setting: Option<Seq<char>>) -> Option<nat> {
    match setting {
        Some(s) => if text::trimmed(s) == "off"@ {
            None
        } else {
            text::usize_text(text::trimmed(s))
        },
        None => None,
    }
}

/// The screen that the details window was left on.
pub fn details_monitor(setting: Option<&str>) -> (r: Option<usize>)
    ensures
        match r {
            Some(index) => details_screen(setting_text(setting)) == Some(index as nat),
            None => details_screen(setting_text(setting)) is None,
        },
{
    match setting {
        Some(s) => {
            let value = text::trim(s);
            if value.is_empty() {
                proof {
                    assert(encode_utf8(value@).len() == 0);
                }
                None
            } else if text::same_text(value, "off") {
                None
            } else {
                text::parse_usize(value)
            }
        },
        None => None,
    }
}

/// How the details window comes to its screen.
#[derive(Debug, Clone, Copy, PartialEq, Eq, Structural)]
pub enum DetailsPlan {
    /// It is open, and moves to fill the screen.
    Move,
    /// It is open, and is shown where it is.
    Show,
    /// It is opened, and put back where it was left.
    OpenWhereLeft(Geometry),
    /// It is opened, and fills the screen.
    OpenFilling,
}

/// How the details window comes to its screen: a screen that the user just picked is filled in any
/// case; otherwise an open window stays where it is, and a new one goes where it was left, or fills
/// the screen where that cannot be.
pub fn details_plan(is_open: bool, just_picked: bool, left_at: Option<Geometry>) -> (r: DetailsPlan)
    ensures
        r == (if is_open {
            if just_picked {
                DetailsPlan::Move
            } else {
                DetailsPlan::Show
            }
        } else {
            match left_at {
                Some(g) if !just_picked => DetailsPlan::OpenWhereLeft(g),
                _ => DetailsPlan::OpenFilling,
            }
        }),
{
    if is_open {
        if just_picked {
            DetailsPlan::Move
        } else {
            DetailsPlan::Show
        }
    } else {
        match left_at {
            Some(g) => if just_picked {
                DetailsPlan::OpenFilling
            } else {
                DetailsPlan::OpenWhereLeft(g)
            },
            None => DetailsPlan::OpenFilling,
        }
    }
}

} // verus!

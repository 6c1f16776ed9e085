//! Window placement: which monitor a point or window is on, the per-monitor saved
//! positions, and where the launcher goes when it is shown.

use vstd::prelude::*;

use crate::text::{concat, i32_string, int_text, same_text};

verus! {

/// A connected monitor's bounds, in physical pixels.
#[derive(Clone, Copy, Debug, PartialEq, Eq)]
pub struct MonitorRect {
    pub x: i32,
    pub y: i32,
    pub width: i32,
    pub height: i32,
}

impl MonitorRect {
    /// The right and bottom edges fit in `i32`.
    pub open spec fn fits(self) -> bool {
        &&& i32::MIN <= self.x + self.width <= i32::MAX
        &&& i32::MIN <= self.y + self.height <= i32::MAX
    }

    /// A monitor with these bounds, when its right and bottom edges fit in `i32`.
    pub fn checked(x: i32, y: i32, width: i32, height: i32) -> (r: Option<MonitorRect>)
        ensures
            match r {
                Some(m) => m == (MonitorRect { x, y, width, height }) && m.fits(),
                None => !(MonitorRect { x, y, width, height }).fits(),
            },
    {
        let r = x as i64 + width as i64;
        let b = y as i64 + height as i64;
        if r < i32::MIN as i64 || r > i32::MAX as i64 || b < i32::MIN as i64 || b > i32::MAX as i64 {
            None
        } else {
            Some(MonitorRect { x, y, width, height })
        }
    }
}

/// The monitor's bounds contain the point.
pub open spec fn contains_point(m: MonitorRect, x: int, y: int) -> bool {
    x >= m.x && y >= m.y && x < m.x + m.width && y < m.y + m.height
}

/// All monitors' edges fit in `i32`.
pub open spec fn all_fit(ms: Seq<MonitorRect>) -> bool {
    forall|i: int| 0 <= i < ms.len() ==> (#[trigger] ms[i]).fits()
}

/// Whether the monitor's bounds contain (x, y).
pub fn within_monitor(m: &MonitorRect, x: i32, y: i32) -> (r: bool)
    requires
        m.fits(),
    ensures
        r == contains_point(*m, x as int, y as int),
{
    x >= m.x && y >= m.y && x < m.x + m.width && y < m.y + m.height
}

/// The key a monitor's saved positions are stored under: its origin, `"<x>x<y>"`.
pub open spec fn monitor_key_text(m: MonitorRect) -> Seq<char> {
    int_text(m.x as int) + "x"@ + int_text(m.y as int)
}

/// Stable-ish id for a monitor within the current arrangement (its top-left origin).
pub fn monitor_key(m: &MonitorRect) -> (r: String)
    ensures
        r@ == monitor_key_text(*m),
{
    let a = i32_string(m.x);
    let b = concat(a.as_str(), "x");
    let c = i32_string(m.y);
    concat(b.as_str(), c.as_str())
}

/// The first monitor whose bounds contain the point.
pub open spec fn first_containing(ms: Seq<MonitorRect>, x: int, y: int) -> Option<MonitorRect>
    decreases ms.len(),
{
    if ms.len() == 0 {
        None
    } else if contains_point(ms[0], x, y) {
        Some(ms[0])
    } else {
        first_containing(ms.drop_first(), x, y)
    }
}

/// The connected monitor whose bounds contain (x, y): the first one listed.
pub fn monitor_containing(monitors: &Vec<MonitorRect>, x: i32, y: i32) -> (r: Option<MonitorRect>)
    requires
        all_fit(monitors@),
    ensures
        r == first_containing(monitors@, x as int, y as int),
{
    let ghost ms = monitors@;
    let mut i: usize = 0;
    assert(ms.subrange(0, ms.len() as int) =~= ms);
    while i < monitors.len()
        invariant
            ms == monitors@,
            all_fit(ms),
            i <= monitors.len(),
            first_containing(ms, x as int, y as int) == first_containing(ms.subrange(i as int, ms.len() as int), x as int, y as int),
        decreases monitors.len() - i,
    {
        let ghost rest = ms.subrange(i as int, ms.len() as int);
        assert(rest[0] == ms[i as int]);
        if within_monitor(&monitors[i], x, y) {
            return Some(monitors[i]);
        }
        assert(rest.drop_first() =~= ms.subrange(i + 1, ms.len() as int));
        i = i + 1;
    }
    None
}

/// The monitor the user is currently on: the one under the cursor (when its position is
/// known), else the primary monitor.
pub fn active_monitor(monitors: &Vec<MonitorRect>, cursor: Option<(i32, i32)>, primary: Option<MonitorRect>) -> (r: Option<MonitorRect>)
    requires
        all_fit(monitors@),
    ensures
        r == (match cursor {
            Some((x, y)) => match first_containing(monitors@, x as int, y as int) {
                Some(m) => Some(m),
                None => primary,
            },
            None => primary,
        }),
{
    if let Some((x, y)) = cursor {
        if let Some(m) = monitor_containing(monitors, x, y) {
            return Some(m);
        }
    }
    primary
}

/// Half of `w`, rounded toward zero as Rust's integer division does.
pub open spec fn half(w: i32) -> int {
    if w >= 0 { (w as int) / 2 } else { -((-(w as int)) / 2) }
}

/// Half of `w`, rounded toward zero.
fn half_of(w: i32) -> (r: i32)
    ensures
        r as int == half(w),
{
    if w >= 0 {
        w / 2
    } else {
        (-((-(w as i64)) / 2)) as i32
    }
}

/// A window's outer frame, in physical pixels.
#[derive(Clone, Copy, Debug, PartialEq, Eq)]
pub struct WindowFrame {
    pub x: i32,
    pub y: i32,
    pub width: i32,
    pub height: i32,
}

impl WindowFrame {
    /// The centre point fits in `i32`.
    pub open spec fn fits(self) -> bool {
        &&& i32::MIN <= self.x + half(self.width) <= i32::MAX
        &&& i32::MIN <= self.y + half(self.height) <= i32::MAX
    }

    /// A frame with these bounds, when its centre point fits in `i32`.
    pub fn checked(x: i32, y: i32, width: i32, height: i32) -> (r: Option<WindowFrame>)
        ensures
            match r {
                Some(f) => f == (WindowFrame { x, y, width, height }) && f.fits(),
                None => !(WindowFrame { x, y, width, height }).fits(),
            },
    {
        let cx = x as i64 + half_of(width) as i64;
        let cy = y as i64 + half_of(height) as i64;
        if cx < i32::MIN as i64 || cx > i32::MAX as i64 || cy < i32::MIN as i64 || cy > i32::MAX as i64 {
            None
        } else {
            Some(WindowFrame { x, y, width, height })
        }
    }
}

/// The monitor a window is on, resolved via its centre point; when no monitor contains
/// the centre, the one the system reports as current. Unknown without the window's frame.
pub fn window_monitor(monitors: &Vec<MonitorRect>, frame: Option<WindowFrame>, current: Option<MonitorRect>) -> (r: Option<MonitorRect>)
    requires
        all_fit(monitors@),
        frame matches Some(f) ==> f.fits(),
    ensures
        r == (match frame {
            Some(f) => match first_containing(monitors@, f.x + half(f.width), f.y + half(f.height)) {
                Some(m) => Some(m),
                None => current,
            },
            None => None,
        }),
{
    match frame {
        None => None,
        Some(f) => {
            let cx = f.x + half_of(f.width);
            let cy = f.y + half_of(f.height);
            match monitor_containing(monitors, cx, cy) {
                Some(m) => Some(m),
                None => current,
            }
        },
    }
}

/// Whether the hidden launcher should be moved to the active monitor: only while it is
/// hidden, when the active monitor is known and the window is on another monitor, or on
/// none known.
pub fn should_reposition(visible: bool, active: Option<MonitorRect>, current: Option<MonitorRect>) -> (r: bool)
    ensures
        r == (!visible && match (active, current) {
            (Some(a), Some(c)) => monitor_key_text(a) != monitor_key_text(c),
            (Some(_), None) => true,
            _ => false,
        }),
{
    if visible {
        return false;
    }
    match (active, current) {
        (Some(a), Some(c)) => {
            let ka = monitor_key(&a);
            let kc = monitor_key(&c);
            !same_text(ka.as_str(), kc.as_str())
        },
        (Some(_), None) => true,
        _ => false,
    }
}

// ---------- saved positions ----------

/// One monitor's saved window position, as stored: each coordinate when it is an integer.
#[derive(Debug, PartialEq)]
pub struct SavedPosition {
    pub monitor: String,
    pub x: Option<i64>,
    pub y: Option<i64>,
}

/// The values of saved positions.
pub open spec fn positions(v: Seq<SavedPosition>) -> Seq<(Seq<char>, Option<i64>, Option<i64>)> {
    v.map_values(|p: SavedPosition| (p.monitor@, p.x, p.y))
}

/// The stored position for monitor `key`, if any.
pub open spec fn stored_at(s: Seq<(Seq<char>, Option<i64>, Option<i64>)>, key: Seq<char>) -> Option<(Option<i64>, Option<i64>)>
    decreases s.len(),
{
    if s.len() == 0 {
        None
    } else if s[0].0 == key {
        Some((s[0].1, s[0].2))
    } else {
        stored_at(s.drop_first(), key)
    }
}

/// The position restored for monitor `key`: both coordinates must be stored integers;
/// each is cut to `i32` as `as i32` does.
pub open spec fn restored(s: Seq<(Seq<char>, Option<i64>, Option<i64>)>, key: Seq<char>) -> Option<(i32, i32)> {
    match stored_at(s, key) {
        Some((Some(x), Some(y))) => Some((x as i32, y as i32)),
        _ => None,
    }
}

/// The saved positions after saving (x, y) for monitor `key`: its entry is replaced in
/// place, or added at the end.
pub open spec fn with_position(s: Seq<(Seq<char>, Option<i64>, Option<i64>)>, key: Seq<char>, x: i32, y: i32) -> Seq<(Seq<char>, Option<i64>, Option<i64>)>
    decreases s.len(),
{
    if s.len() == 0 {
        seq![(key, Some(x as i64), Some(y as i64))]
    } else if s[0].0 == key {
        seq![(key, Some(x as i64), Some(y as i64))] + s.drop_first()
    } else {
        seq![s[0]] + with_position(s.drop_first(), key, x, y)
    }
}

/// The saved position for monitor `key`, if both coordinates are stored integers.
pub fn load_position(saved: &Vec<SavedPosition>, key: &str) -> (r: Option<(i32, i32)>)
    ensures
        r == restored(positions(saved@), key@),
{
    let ghost ps = positions(saved@);
    let mut i: usize = 0;
    assert(ps.subrange(0, ps.len() as int) =~= ps);
    while i < saved.len()
        invariant
            ps == positions(saved@),
            i <= saved.len(),
            stored_at(ps, key@) == stored_at(ps.subrange(i as int, ps.len() as int), key@),
        decreases saved.len() - i,
    {
        let ghost rest = ps.subrange(i as int, ps.len() as int);
        assert(rest[0] == (saved@[i as int].monitor@, saved@[i as int].x, saved@[i as int].y));
        if same_text(saved[i].monitor.as_str(), key) {
            return match (saved[i].x, saved[i].y) {
                (Some(x), Some(y)) => Some((x as i32, y as i32)),
                _ => None,
            };
        }
        assert(rest.drop_first() =~= ps.subrange(i + 1, ps.len() as int));
        i = i + 1;
    }
    None
}

/// Saves (x, y) as the position for monitor `key`.
pub fn save_position(saved: &Vec<SavedPosition>, key: &str, x: i32, y: i32) -> (r: Vec<SavedPosition>)
    ensures
        positions(r@) == with_position(positions(saved@), key@, x, y),
{
    let ghost ps = positions(saved@);
    let mut out: Vec<SavedPosition> = Vec::new();
    let mut i: usize = 0;
    let mut replaced = false;
    assert(ps.subrange(0, ps.len() as int) =~= ps);
    assert(positions(out@) =~= Seq::<(Seq<char>, Option<i64>, Option<i64>)>::empty());
    while i < saved.len() && !replaced
        invariant
            ps == positions(saved@),
            i <= saved.len(),
            !replaced ==> with_position(ps, key@, x, y) == positions(out@) + with_position(ps.subrange(i as int, ps.len() as int), key@, x, y),
            replaced ==> with_position(ps, key@, x, y) == positions(out@) + ps.subrange(i as int, ps.len() as int),
        decreases saved.len() - i, if replaced { 0int } else { 1int },
    {
        let ghost rest = ps.subrange(i as int, ps.len() as int);
        let ghost before = out@;
        assert(rest[0] == (saved@[i as int].monitor@, saved@[i as int].x, saved@[i as int].y));
        assert(rest.drop_first() =~= ps.subrange(i + 1, ps.len() as int));
        if same_text(saved[i].monitor.as_str(), key) {
            out.push(SavedPosition { monitor: String::from_str(key), x: Some(x as i64), y: Some(y as i64) });
            replaced = true;
        } else {
            out.push(SavedPosition { monitor: saved[i].monitor.clone(), x: saved[i].x, y: saved[i].y });
        }
        assert(positions(out@) =~= positions(before).push(positions(out@).last()));
        i = i + 1;
    }
    if replaced {
        while i < saved.len()
            invariant
                ps == positions(saved@),
                i <= saved.len(),
                with_position(ps, key@, x, y) == positions(out@) + ps.subrange(i as int, ps.len() as int),
            decreases saved.len() - i,
        {
            let ghost before = out@;
            out.push(SavedPosition { monitor: saved[i].monitor.clone(), x: saved[i].x, y: saved[i].y });
            assert(positions(out@) =~= positions(before).push(ps[i as int]));
            assert(ps.subrange(i as int, ps.len() as int) =~= seq![ps[i as int]] + ps.subrange(i + 1, ps.len() as int));
            i = i + 1;
        }
        assert(ps.subrange(i as int, ps.len() as int) =~= Seq::<(Seq<char>, Option<i64>, Option<i64>)>::empty());
    } else {
        let ghost before = out@;
        out.push(SavedPosition { monitor: String::from_str(key), x: Some(x as i64), y: Some(y as i64) });
        assert(ps.subrange(i as int, ps.len() as int) =~= Seq::<(Seq<char>, Option<i64>, Option<i64>)>::empty());
        assert(positions(out@) =~= positions(before).push((key@, Some(x as i64), Some(y as i64))));
    }
    assert(positions(out@) =~= with_position(ps, key@, x, y));
    out
}

// ---------- launcher placement ----------

/// Where the launcher goes when shown.
#[derive(Clone, Copy, Debug, PartialEq, Eq)]
pub enum Placement {
    /// No monitor is known: let the system centre it.
    Center,
    /// Back where the user left it on this monitor.
    At(i32, i32),
    /// The default spot on this monitor: horizontally centred in its upper part.
    UpperThird(MonitorRect),
}

/// Where the launcher is placed on monitor `mon` (the active one, else the current one):
/// at the position saved for that monitor if it is still inside it, else the monitor's
/// default spot; centred when no monitor is known.
pub open spec fn placement_for(mon: Option<MonitorRect>, saved: Seq<(Seq<char>, Option<i64>, Option<i64>)>) -> Placement {
    match mon {
        None => Placement::Center,
        Some(m) => match restored(saved, monitor_key_text(m)) {
            Some((x, y)) => if contains_point(m, x as int, y as int) {
                Placement::At(x, y)
            } else {
                Placement::UpperThird(m)
            },
            None => Placement::UpperThird(m),
        },
    }
}

/// Decides where to place the launcher on the active monitor.
pub fn place_launcher(mon: Option<MonitorRect>, saved: &Vec<SavedPosition>) -> (r: Placement)
    requires
        mon matches Some(m) ==> m.fits(),
    ensures
        r == placement_for(mon, positions(saved@)),
{
    match mon {
        None => Placement::Center,
        Some(m) => {
            let key = monitor_key(&m);
            match load_position(saved, key.as_str()) {
                Some((x, y)) => if within_monitor(&m, x, y) {
                    Placement::At(x, y)
                } else {
                    Placement::UpperThird(m)
                },
                None => Placement::UpperThird(m),
            }
        },
    }
}

} // verus!

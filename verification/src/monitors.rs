//! The screens of the desktop, and which of them a window goes to.
use crate::text;
use vstd::prelude::*;
use vstd::string::*;

verus! {

/// A screen as the system reports it, in physical pixels.
#[derive(Debug)]
pub struct Monitor {
    pub name: Option<String>,
    pub x: i32,
    pub y: i32,
    pub width: u32,
    pub height: u32,
}

/// The text of an optional name.
pub open spec fn name_text(name: Option<String>) -> Option<Seq<char>> {
    match name {
        Some(s) => Some(s@),
        None => None,
    }
}

/// The name to show for the screen at a place in the system's list.
pub open spec fn shown_name(m: Monitor, index: int) -> Seq<char> {
    match m.name {
        Some(s) => s@,
        None => "Display "@ + text::decimal(index + 1),
    }
}

/// The name of the primary screen, where it is known.
pub open spec fn primary_name(primary: Option<Monitor>) -> Option<Seq<char>> {
    match primary {
        Some(p) => name_text(p.name),
        None => None,
    }
}

/// Where a screen lies beside the primary one.
#[derive(Debug, Clone, Copy, PartialEq, Eq, Structural)]
pub enum Side {
    Right,
    Left,
    Below,
    Above,
    Unsaid,
}

impl Side {
    /// The word for the side.
    pub open spec fn word(self) -> Seq<char> {
        match self {
            Side::Right => "right"@,
            Side::Left => "left"@,
            Side::Below => "below"@,
            Side::Above => "above"@,
            Side::Unsaid => ""@,
        }
    }

    /// The word for the side.
    pub fn as_str(&self) -> (r: &'static str)
        ensures
            r@ == self.word(),
    {
        match self {
            Side::Right => "right",
            Side::Left => "left",
            Side::Below => "below",
            Side::Above => "above",
            Side::Unsaid => "",
        }
    }
}

/// The coordinate at which a stretch ends. Coordinates are machine integers: they wrap.
pub open spec fn end_of(start: i32, extent: u32) -> i32 {
    start.wrapping_add(extent as i32)
}

/// Where a screen lies beside the primary one.
pub open spec fn side_of(m: Monitor, primary: Monitor) -> Side {
    if m.x >= end_of(primary.x, primary.width) {
        Side::Right
    } else if end_of(m.x, m.width) <= primary.x {
        Side::Left
    } else if m.y >= end_of(primary.y, primary.height) {
        Side::Below
    } else if end_of(m.y, m.height) <= primary.y {
        Side::Above
    } else {
        Side::Unsaid
    }
}

/// A screen in the list to choose from.
#[verifier::ext_equal]
pub struct EntryModel {
    pub index: int,
    pub name: Seq<char>,
    pub x: i32,
    pub y: i32,
    pub width: u32,
    pub height: u32,
    pub is_primary: bool,
    pub side: Side,
}

/// A screen in the list to choose from.
pub open spec fn entry_of(
    monitors: Seq<Monitor>,
    index: int,
    primary: Option<Monitor>,
) -> EntryModel {
    let m = monitors[index];
    let is_primary = primary_name(primary) == Some(shown_name(m, index));
    EntryModel {
        index,
        name: shown_name(m, index),
        x: m.x,
        y: m.y,
        width: m.width,
        height: m.height,
        is_primary,
        side: match primary {
            Some(p) if !is_primary => side_of(m, p),
            _ => Side::Unsaid,
        },
    }
}

/// The screens up to a place in the system's list that are, or are not, the primary one.
pub open spec fn entries_upto(
    monitors: Seq<Monitor>,
    n: int,
    primary: Option<Monitor>,
    wanted: bool,
) -> Seq<EntryModel>
    decreases n,
{
    if n <= 0 {
        Seq::empty()
    } else {
        let before = entries_upto(monitors, n - 1, primary, wanted);
        let entry = entry_of(monitors, n - 1, primary);
        if entry.is_primary == wanted {
            before.push(entry)
        } else {
            before
        }
    }
}

/// The screens to choose from: the primary one first, the others in the system's order.
pub open spec fn monitor_list(monitors: Seq<Monitor>, primary: Option<Monitor>) -> Seq<EntryModel> {
    entries_upto(monitors, monitors.len() as int, primary, true) + entries_upto(
        monitors,
        monitors.len() as int,
        primary,
        false,
    )
}

/// A screen in the list to choose from.
#[derive(Debug)]
pub struct MonitorEntry {
    /// Place in the system's list; it stays the same whatever order is shown.
    pub index: usize,
    pub name: String,
    pub x: i32,
    pub y: i32,
    pub width: u32,
    pub height: u32,
    pub is_primary: bool,
    pub side: Side,
}

impl View for MonitorEntry {
    type V = EntryModel;

    open spec fn view(&self) -> EntryModel {
        EntryModel {
            index: self.index as int,
            name: self.name@,
            x: self.x,
            y: self.y,
            width: self.width,
            height: self.height,
            is_primary: self.is_primary,
            side: self.side,
        }
    }
}

/// The models of a list of screens.
pub open spec fn entry_models(s: Seq<MonitorEntry>) -> Seq<EntryModel> {
    s.map_values(|e: MonitorEntry| e@)
}

/// The primary screen that a reference stands for.
pub open spec fn primary_of(primary: Option<&Monitor>) -> Option<Monitor> {
    match primary {
        Some(p) => Some(*p),
        None => None,
    }
}

fn end_coordinate(start: i32, extent: u32) -> (r: i32)
    ensures
        r == end_of(start, extent),
{
    start.wrapping_add(extent as i32)
}

/// Where a screen lies beside the primary one.
fn find_side(m: &Monitor, primary: &Monitor) -> (r: Side)
    ensures
        r == side_of(*m, *primary),
{
    if m.x >= end_coordinate(primary.x, primary.width) {
        Side::Right
    } else if end_coordinate(m.x, m.width) <= primary.x {
        Side::Left
    } else if m.y >= end_coordinate(primary.y, primary.height) {
        Side::Below
    } else if end_coordinate(m.y, m.height) <= primary.y {
        Side::Above
    } else {
        Side::Unsaid
    }
}

/// A screen in the list to choose from.
fn make_entry(monitors: &Vec<Monitor>, index: usize, primary: Option<&Monitor>) -> (r: MonitorEntry)
    requires
        index < monitors@.len(),
    ensures
        r@ == entry_of(monitors@, index as int, primary_of(primary)),
{
    assert(index < monitors.len());
    let m = &monitors[index];
    let name = match &m.name {
        Some(s) => s.clone(),
        None => {
            let mut s = "Display ".to_owned();
            s.append(text::decimal_of_u64(index as u64 + 1).as_str());
            s
        },
    };
    let is_primary = match primary {
        Some(p) => match &p.name {
            Some(s) => text::same_text(s.as_str(), name.as_str()),
            None => false,
        },
        None => false,
    };
    let side = match primary {
        Some(p) => if is_primary {
            Side::Unsaid
        } else {
            find_side(m, p)
        },
        None => Side::Unsaid,
    };
    MonitorEntry {
        index,
        name,
        x: m.x,
        y: m.y,
        width: m.width,
        height: m.height,
        is_primary,
        side,
    }
}

/// The screens to choose from.
pub fn list_monitors(monitors: &Vec<Monitor>, primary: Option<&Monitor>) -> (r: Vec<MonitorEntry>)
    ensures
        entry_models(r@) == monitor_list(monitors@, primary_of(primary)),
{
    let ghost p = primary_of(primary);
    let n: usize = monitors.len();
    let mut first: Vec<MonitorEntry> = Vec::new();
    let mut others: Vec<MonitorEntry> = Vec::new();
    let mut i: usize = 0;
    assert(entry_models(first@) =~= Seq::empty());
    assert(entry_models(others@) =~= Seq::empty());
    while i < n
        invariant
            i <= n,
            n == monitors@.len(),
            p == primary_of(primary),
            entry_models(first@) == entries_upto(monitors@, i as int, p, true),
            entry_models(others@) == entries_upto(monitors@, i as int, p, false),
        decreases n - i,
    {
        let ghost a = entry_models(first@);
        let ghost b = entry_models(others@);
        let entry = make_entry(monitors, i, primary);
        let ghost e = entry@;
        if entry.is_primary {
            first.push(entry);
            assert(entry_models(first@) =~= a.push(e));
        } else {
            others.push(entry);
            assert(entry_models(others@) =~= b.push(e));
        }
        i += 1;
    }
    let ghost a = entry_models(first@);
    let ghost b = entry_models(others@);
    first.append(&mut others);
    assert(entry_models(first@) =~= a + b);
    first
}

/// What can be wrong with a chosen screen.
#[derive(Debug, Clone, Copy, PartialEq, Eq, Structural)]
pub enum MonitorError {
    /// The system reports no screens.
    NoMonitors,
    /// There is no screen at the place.
    NotConnected { index: usize },
}

impl MonitorError {
    /// What is said of the error.
    pub open spec fn text(self) -> Seq<char> {
        match self {
            MonitorError::NoMonitors => "no monitors reported"@,
            MonitorError::NotConnected { index } => "monitor "@ + text::decimal(index as int)
                + " is not connected"@,
        }
    }

    /// What is said of the error.
    pub fn message(&self) -> (r: String)
        ensures
            r@ == self.text(),
    {
        match self {
            MonitorError::NoMonitors => "no monitors reported".to_owned(),
            MonitorError::NotConnected { index } => {
                let mut s = "monitor ".to_owned();
                s.append(text::decimal_of_u64(*index as u64).as_str());
                s.append(" is not connected");
                s
            },
        }
    }
}

/// Checks that there is a screen at the place that was chosen.
pub fn pick_monitor(count: usize, index: usize) -> (r: Result<usize, MonitorError>)
    ensures
        r == (if count == 0 {
            Err(MonitorError::NoMonitors)
        } else if index >= count {
            Err(MonitorError::NotConnected { index })
        } else {
            Ok(index)
        }),
{
    if count == 0 {
        Err(MonitorError::NoMonitors)
    } else if index >= count {
        Err(MonitorError::NotConnected { index })
    } else {
        Ok(index)
    }
}

/// Whether the screen goes by the name of the primary one.
pub open spec fn named_primary(m: Monitor, primary: Option<Monitor>) -> bool {
    name_text(m.name) == primary_name(primary)
}

/// How many screens up to a place in the system's list go, or do not go, by the name of the
/// primary one.
pub open spec fn count_named(
    monitors: Seq<Monitor>,
    n: int,
    primary: Option<Monitor>,
    wanted: bool,
) -> int
    decreases n,
{
    if n <= 0 {
        0
    } else {
        count_named(monitors, n - 1, primary, wanted) + if named_primary(monitors[n - 1], primary)
            == wanted {
            1int
        } else {
            0
        }
    }
}

/// The number of a screen in the list to choose from, counted from one.
pub open spec fn place_in_list(monitors: Seq<Monitor>, index: int, primary: Option<Monitor>) -> int {
    1 + if named_primary(monitors[index], primary) {
        count_named(monitors, index, primary, true)
    } else {
        count_named(monitors, monitors.len() as int, primary, true) + count_named(
            monitors,
            index,
            primary,
            false,
        )
    }
}

/// Which screen a window landed on.
#[derive(Debug, Clone, Copy, PartialEq, Eq, Structural)]
pub struct Placement {
    pub number: u64,
    pub width: u32,
    pub height: u32,
    pub is_primary: bool,
}

/// Whether two optional names are the same.
fn same_name(a: &Option<String>, b: &Option<String>) -> (r: bool)
    ensures
        r == (name_text(*a) == name_text(*b)),
{
    match (a, b) {
        (Some(x), Some(y)) => text::same_text(x.as_str(), y.as_str()),
        (None, None) => true,
        _ => false,
    }
}

/// Which screen a window landed on; nothing where there is no such screen.
pub fn placement(
    monitors: &Vec<Monitor>,
    index: usize,
    primary: Option<&Monitor>,
) -> (r: Option<Placement>)
    ensures
        match r {
            Some(p) => index < monitors@.len() && p.number == place_in_list(
                monitors@,
                index as int,
                primary_of(primary),
            ) && p.width == monitors@[index as int].width && p.height
                == monitors@[index as int].height && p.is_primary == (primary_name(
                primary_of(primary),
            ) == Some(
                match monitors@[index as int].name {
                    Some(s) => s@,
                    None => Seq::empty(),
                },
            )),
            None => index >= monitors@.len(),
        },
{
    let n: usize = monitors.len();
    if index >= n {
        return None;
    }
    let ghost p = primary_of(primary);
    let none: Option<String> = None;
    let known = match primary {
        Some(m) => &m.name,
        None => &none,
    };
    assert(name_text(*known) == primary_name(p));
    let mut named_before: u64 = 0;
    let mut others_before: u64 = 0;
    let mut named: u64 = 0;
    let mut i: usize = 0;
    while i < n
        invariant
            i <= n,
            n == monitors@.len(),
            index < n,
            name_text(*known) == primary_name(p),
            named == count_named(monitors@, i as int, p, true),
            named <= i,
            named_before == count_named(
                monitors@,
                if i < index {
                    i as int
                } else {
                    index as int
                },
                p,
                true,
            ),
            others_before == count_named(
                monitors@,
                if i < index {
                    i as int
                } else {
                    index as int
                },
                p,
                false,
            ),
            named_before <= named,
            named_before <= index,
            others_before + named <= i,
            i > index && !named_primary(monitors@[index as int], p) ==> others_before + named < i,
        decreases n - i,
    {
        if same_name(&monitors[i].name, known) {
            named += 1;
            if i < index {
                named_before += 1;
            }
        } else if i < index {
            others_before += 1;
        }
        i += 1;
    }
    let m = &monitors[index];
    let number: u64 = if same_name(&m.name, known) {
        named_before + 1
    } else {
        named + others_before + 1
    };
    let own = match &m.name {
        Some(s) => s.clone(),
        None => String::new(),
    };
    let is_primary = match known {
        Some(s) => text::same_text(s.as_str(), own.as_str()),
        None => false,
    };
    Some(Placement { number, width: m.width, height: m.height, is_primary })
}

proof fn lemma_entries_counted(
    monitors: Seq<Monitor>,
    n: int,
    primary: Option<Monitor>,
    wanted: bool,
)
    requires
        0 <= n <= monitors.len(),
        primary_name(primary) is Some,
        forall|i: int| 0 <= i < monitors.len() ==> (#[trigger] monitors[i]).name is Some,
    ensures
        entries_upto(monitors, n, primary, wanted).len() == count_named(
            monitors,
            n,
            primary,
            wanted,
        ),
    decreases n,
{
    if n > 0 {
        lemma_entries_counted(monitors, n - 1, primary, wanted);
        assert(monitors[n - 1].name is Some);
    }
}

proof fn lemma_entry_stays(
    monitors: Seq<Monitor>,
    k: int,
    n: int,
    primary: Option<Monitor>,
    wanted: bool,
)
    requires
        0 <= k < n <= monitors.len(),
        entry_of(monitors, k, primary).is_primary == wanted,
    ensures
        ({
            let place = entries_upto(monitors, k, primary, wanted).len() as int;
            let all = entries_upto(monitors, n, primary, wanted);
            place < all.len() && all[place] == entry_of(monitors, k, primary)
        }),
    decreases n,
{
    if k < n - 1 {
        lemma_entry_stays(monitors, k, n - 1, primary, wanted);
    }
}

/// The number that is announced for a screen is its place in the list to choose from, where the
/// system gives every screen a name and says which is the primary one.
pub proof fn law_announced_number_is_the_listed_one(
    monitors: Seq<Monitor>,
    index: int,
    primary: Option<Monitor>,
)
    requires
        0 <= index < monitors.len(),
        primary_name(primary) is Some,
        forall|i: int| 0 <= i < monitors.len() ==> (#[trigger] monitors[i]).name is Some,
    ensures
        ({
            let place = place_in_list(monitors, index, primary);
            let list = monitor_list(monitors, primary);
            0 < place <= list.len() && list[place - 1] == entry_of(monitors, index, primary)
        }),
{
    let n = monitors.len() as int;
    assert(monitors[index].name is Some);
    let wanted = named_primary(monitors[index], primary);
    assert(entry_of(monitors, index, primary).is_primary == wanted);
    lemma_entries_counted(monitors, index, primary, wanted);
    lemma_entries_counted(monitors, n, primary, true);
    lemma_entry_stays(monitors, index, n, primary, wanted);
}

proof fn lemma_entries_all_listed(
    monitors: Seq<Monitor>,
    n: int,
    primary: Option<Monitor>,
)
    requires
        0 <= n,
    ensures
        entries_upto(monitors, n, primary, true).len() + entries_upto(
            monitors,
            n,
            primary,
            false,
        ).len() == n,
        forall|i: int|
            0 <= i < entries_upto(monitors, n, primary, true).len() ==> (
            #[trigger] entries_upto(monitors, n, primary, true)[i]).is_primary,
        forall|i: int|
            0 <= i < entries_upto(monitors, n, primary, false).len() ==> !(
            #[trigger] entries_upto(monitors, n, primary, false)[i]).is_primary,
    decreases n,
{
    if n > 0 {
        lemma_entries_all_listed(monitors, n - 1, primary);
    }
}

/// Every screen is listed once, under its place in the system's list, and none stands before the
/// primary one that is not primary itself.
pub proof fn law_primary_comes_first(
    monitors: Seq<Monitor>,
    primary: Option<Monitor>,
    index: int,
    i: int,
    j: int,
)
    requires
        0 <= index < monitors.len(),
        0 <= i < j < monitors.len(),
    ensures
        ({
            let list = monitor_list(monitors, primary);
            &&& list.len() == monitors.len()
            &&& list.contains(entry_of(monitors, index, primary))
            &&& list[j].is_primary ==> list[i].is_primary
        }),
{
    let n = monitors.len() as int;
    let list = monitor_list(monitors, primary);
    let first = entries_upto(monitors, n, primary, true);
    let others = entries_upto(monitors, n, primary, false);
    lemma_entries_all_listed(monitors, n, primary);
    let entry = entry_of(monitors, index, primary);
    lemma_entry_stays(monitors, index, n, primary, entry.is_primary);
    let place = entries_upto(monitors, index, primary, entry.is_primary).len() as int;
    if entry.is_primary {
        assert(list[place] == entry);
    } else {
        assert(list[first.len() + place] == entry);
    }
    if j < first.len() {
        assert(list[i] == first[i]);
    } else {
        assert(list[j] == others[j - first.len()]);
    }
}

} // verus!

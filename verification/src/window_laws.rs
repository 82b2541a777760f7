//! What holds of windows, screens, the overlay and updates.
use crate::bytes;
use crate::geometry;
use crate::geometry::{Point, WindowSize};
use crate::monitors;
use crate::monitors::{Monitor, MonitorError, Side};
use crate::overlay;
use crate::overlay::{Overlay, OverlayAction, OverlayView};
use crate::text;
use crate::text_laws;
use crate::update;
use crate::update::Download;
use vstd::prelude::*;

verus! {

/// Whether the screen is of a size, and at a place, that leaves its ends in the machine's numbers.
pub open spec fn is_ordinary(m: Monitor) -> bool {
    -1_000_000 <= m.x <= 1_000_000 && -1_000_000 <= m.y <= 1_000_000 && m.width <= 1_000_000
        && m.height <= 1_000_000
}

/// Whether all screens are ordinary.
pub open spec fn are_ordinary(ms: Seq<Monitor>) -> bool {
    forall|i: int| 0 <= i < ms.len() ==> is_ordinary(#[trigger] ms[i])
}

/// Whether the point lies on the screen, or up to 64 pixels left of it or above it.
pub open spec fn lies_by(x: int, y: int, m: Monitor) -> bool {
    m.x - 64 <= x && x < m.x + m.width && m.y - 64 <= y && y < m.y + m.height
}

proof fn lemma_on_screen(ms: Seq<Monitor>, x: int, y: int)
    requires
        are_ordinary(ms),
    ensures
        geometry::on_screen(ms, x, y) <==> exists|i: int|
            0 <= i < ms.len() && lies_by(x, y, #[trigger] ms[i]),
{
    assert forall|i: int| 0 <= i < ms.len() implies geometry::seen_on(#[trigger] ms[i], x, y)
        == lies_by(x, y, ms[i]) by {
        assert(is_ordinary(ms[i]));
    }
    if geometry::on_screen(ms, x, y) {
        let i = choose|i: int| 0 <= i < ms.len() && geometry::seen_on(#[trigger] ms[i], x, y);
        assert(lies_by(x, y, ms[i]));
    }
    if exists|i: int| 0 <= i < ms.len() && lies_by(x, y, #[trigger] ms[i]) {
        let i = choose|i: int| 0 <= i < ms.len() && lies_by(x, y, #[trigger] ms[i]);
        assert(geometry::seen_on(ms[i], x, y));
    }
}

/// A window is put back just where both of its coordinates were kept, neither is that of a minimised
/// window, and the point lies on a screen or close to its upper left corner; and then there. Its
/// size is put back just where both measures were kept, and are more than 200 by 150.
pub proof fn law_which_windows_are_put_back(
    x: i32,
    y: i32,
    width: i32,
    height: i32,
    ms: Seq<Monitor>,
)
    requires
        are_ordinary(ms),
    ensures
        ({
            let kept_x = Some(text::decimal(x as int));
            let kept_y = Some(text::decimal(y as int));
            let kept_w = Some(text::decimal(width as int));
            let kept_h = Some(text::decimal(height as int));
            let r = geometry::restored(kept_x, kept_y, kept_w, kept_h, ms);
            let fits = x > -10_000 && y > -10_000 && exists|i: int|
                0 <= i < ms.len() && lies_by(x as int, y as int, #[trigger] ms[i]);
            &&& r is Some <==> fits
            &&& r is Some ==> r->0.x == x && r->0.y == y && r->0.size == if width > 200 && height
                > 150 {
                Some(WindowSize { width: width as u32, height: height as u32 })
            } else {
                None
            }
            &&& geometry::restored(kept_x, kept_y, None, kept_h, ms) == geometry::restored(
                kept_x,
                kept_y,
                kept_w,
                None,
                ms,
            )
            &&& geometry::restored(kept_x, kept_y, None, kept_h, ms) is Some <==> fits
            &&& fits ==> geometry::restored(kept_x, kept_y, None, kept_h, ms)->0.size is None
            &&& geometry::restored(None, kept_y, kept_w, kept_h, ms) is None
            &&& geometry::restored(kept_x, None, kept_w, kept_h, ms) is None
        }),
{
    geometry::lemma_measure_of_decimal(x as int);
    geometry::lemma_measure_of_decimal(y as int);
    geometry::lemma_measure_of_decimal(width as int);
    geometry::lemma_measure_of_decimal(height as int);
    lemma_on_screen(ms, x as int, y as int);
}

/// The overlay is put back where it was left just where neither coordinate is that of a minimised
/// window.
pub proof fn law_where_the_overlay_is_put_back(x: i32, y: i32)
    ensures
        ({
            let r = geometry::overlay_position(
                Some(text::decimal(x as int)),
                Some(text::decimal(y as int)),
            );
            &&& r is Some <==> x > -10_000 && y > -10_000
            &&& r is Some ==> r->0 == (Point { x, y })
            &&& geometry::overlay_position(None, Some(text::decimal(y as int))) is None
            &&& geometry::overlay_position(Some(text::decimal(x as int)), None) is None
        }),
{
    geometry::lemma_measure_of_decimal(x as int);
    geometry::lemma_measure_of_decimal(y as int);
}

/// White space around a kept measure is passed over.
pub proof fn law_white_space_around_a_measure_does_not_count(
    s: Seq<char>,
    n: i32,
)
    requires
        text::trimmed(s) == text::decimal(n as int),
    ensures
        geometry::measure(Some(s)) == Some(n as int),
        geometry::measure(None) is None,
{
    geometry::lemma_measure_of_decimal(n as int);
}

/// The details window has a screen where the setting spells its number, white space around it
/// aside; it has none where it was switched off or nothing was set.
pub proof fn law_the_screen_of_the_details_window(s: Seq<char>, n: usize)
    ensures
        text::trimmed(s) == text::decimal(n as int) ==> geometry::details_screen(Some(s)) == Some(
            n as nat,
        ),
        text::trimmed(s) == "off"@ ==> geometry::details_screen(Some(s)) is None,
        geometry::details_screen(None) is None,
{
    if text::trimmed(s) == text::decimal(n as int) {
        reveal_strlit("off");
        text::lemma_decimal_chars(n as int);
        let d = text::decimal(n as int);
        assert(d != "off"@) by {
            assert(d[0] == '-' || ('0' <= d[0] && d[0] <= '9'));
            assert("off"@[0] == 'o');
        }
        text_laws::lemma_natural_is_read_back(n as nat);
    }
}

/// Two settings share a name only if they are the same measure of the same window, as long as the
/// measures are without dots.
pub proof fn law_settings_have_names_of_their_own(
    label: Seq<char>,
    field: Seq<char>,
    other_label: Seq<char>,
    other_field: Seq<char>,
)
    requires
        !field.contains('.'),
        !other_field.contains('.'),
    ensures
        geometry::setting_name(label, field) == geometry::setting_name(other_label, other_field)
            <==> label == other_label && field == other_field,
        geometry::setting_name(label, field).len() == 8 + label.len() + field.len(),
        geometry::setting_name(label, field).take(7) == "window."@,
        geometry::setting_name(label, field).subrange(7, 7 + label.len() as int) == label,
{
    reveal_strlit("window.");
    reveal_strlit(".");
    let a = geometry::setting_name(label, field);
    let b = geometry::setting_name(other_label, other_field);
    assert(a.len() == 8 + label.len() + field.len());
    assert(b.len() == 8 + other_label.len() + other_field.len());
    assert(a.take(7) =~= "window."@);
    assert(a.subrange(7, 7 + label.len() as int) =~= label);
    if a == b {
        let n = 7 + label.len() as int;
        let m = 7 + other_label.len() as int;
        assert(a[n] == '.');
        assert(b[m] == '.');
        if n < m {
            assert(a[m] == field[m - n - 1]);
            assert(field.contains(field[m - n - 1]));
        }
        if m < n {
            assert(b[n] == other_field[n - m - 1]);
            assert(other_field.contains(other_field[n - m - 1]));
        }
        assert(label =~= other_label) by {
            assert forall|i: int| 0 <= i < label.len() implies label[i] == other_label[i] by {
                assert(a[7 + i] == label[i]);
                assert(b[7 + i] == other_label[i]);
            }
        }
        assert(field =~= other_field) by {
            assert forall|i: int| 0 <= i < field.len() implies field[i] == other_field[i] by {
                assert(a[n + 1 + i] == field[i]);
                assert(b[n + 1 + i] == other_field[i]);
            }
        }
    }
}

/// A listed screen is as the system reports it, under its name, or under its number where it has
/// none. It is the primary one just where it goes by the name of that.
pub proof fn law_a_listed_screen_is_as_reported(
    ms: Seq<Monitor>,
    index: int,
    primary: Option<Monitor>,
)
    requires
        0 <= index < ms.len(),
    ensures
        ({
            let e = monitors::entry_of(ms, index, primary);
            let m = ms[index];
            &&& e.index == index
            &&& e.x == m.x && e.y == m.y && e.width == m.width && e.height == m.height
            &&& m.name is Some ==> e.name == m.name->0@
            &&& m.name is None ==> e.name == "Display "@ + text::decimal(index + 1)
            &&& e.is_primary <==> primary is Some && primary->0.name is Some
                && primary->0.name->0@ == e.name
            &&& e.is_primary || primary is None ==> e.side == Side::Unsaid
        }),
{
}

/// Where two screens lie beside each other, the side says how: right of the primary one where it
/// begins at or behind its right end, left where it ends at or before its left; only where neither
/// holds, below or above.
pub proof fn law_where_a_screen_lies(ms: Seq<Monitor>, index: int, primary: Monitor)
    requires
        0 <= index < ms.len(),
        is_ordinary(ms[index]),
        is_ordinary(primary),
        !monitors::entry_of(ms, index, Some(primary)).is_primary,
    ensures
        ({
            let m = ms[index];
            let side = monitors::entry_of(ms, index, Some(primary)).side;
            let right = m.x >= primary.x + primary.width;
            let left = m.x + m.width <= primary.x;
            let below = m.y >= primary.y + primary.height;
            let above = m.y + m.height <= primary.y;
            &&& right ==> side == Side::Right
            &&& left && !right ==> side == Side::Left
            &&& below && !right && !left ==> side == Side::Below
            &&& above && !right && !left && !below ==> side == Side::Above
            &&& !right && !left && !below && !above ==> side == Side::Unsaid
        }),
{
}

proof fn lemma_in_order(
    ms: Seq<Monitor>,
    n: int,
    primary: Option<Monitor>,
    wanted: bool,
)
    requires
        0 <= n,
    ensures
        forall|i: int, j: int|
            #![trigger monitors::entries_upto(ms, n, primary, wanted)[i], monitors::entries_upto(
                ms,
                n,
                primary,
                wanted,
            )[j]]
            0 <= i < j < monitors::entries_upto(ms, n, primary, wanted).len()
                ==> monitors::entries_upto(ms, n, primary, wanted)[i].index
                < monitors::entries_upto(ms, n, primary, wanted)[j].index,
        forall|i: int|
            0 <= i < monitors::entries_upto(ms, n, primary, wanted).len() ==> (
            #[trigger] monitors::entries_upto(ms, n, primary, wanted)[i]).index < n
                && monitors::entries_upto(ms, n, primary, wanted)[i].is_primary == wanted,
    decreases n,
{
    if n > 0 {
        lemma_in_order(ms, n - 1, primary, wanted);
        let before = monitors::entries_upto(ms, n - 1, primary, wanted);
        let all = monitors::entries_upto(ms, n, primary, wanted);
        assert forall|i: int| 0 <= i < before.len() implies #[trigger] all[i] == before[i] by {}
    }
}

/// Of the screens that are not primary, and of those that are, the one that the system lists first
/// stands first.
pub proof fn law_screens_keep_the_systems_order(
    ms: Seq<Monitor>,
    primary: Option<Monitor>,
    i: int,
    j: int,
)
    requires
        0 <= i < j < monitors::monitor_list(ms, primary).len(),
        monitors::monitor_list(ms, primary)[i].is_primary == monitors::monitor_list(
            ms,
            primary,
        )[j].is_primary,
    ensures
        monitors::monitor_list(ms, primary)[i].index < monitors::monitor_list(
            ms,
            primary,
        )[j].index,
{
    let n = ms.len() as int;
    let first = monitors::entries_upto(ms, n, primary, true);
    let others = monitors::entries_upto(ms, n, primary, false);
    let list = monitors::monitor_list(ms, primary);
    lemma_in_order(ms, n, primary, true);
    lemma_in_order(ms, n, primary, false);
    if i < first.len() {
        assert(list[i] == first[i]);
        if j < first.len() {
            assert(list[j] == first[j]);
        } else {
            assert(list[j] == others[j - first.len()]);
        }
    } else {
        assert(list[i] == others[i - first.len()]);
        assert(list[j] == others[j - first.len()]);
    }
}

/// The overlay is left alone for the first twenty ticks, while the setting is off, and where its
/// window is gone.
pub proof fn law_when_the_overlay_is_left_alone(o: Overlay, auto_hide: bool, view: OverlayView)
    requires
        o.ticks < u64::MAX,
    ensures
        o.ticks < 20 || !auto_hide ==> o.action_at(auto_hide, Some(view)) == OverlayAction::Keep
            && o.ticked(auto_hide, Some(view)).hide_delay == o.hide_delay,
        o.action_at(auto_hide, None) == OverlayAction::Keep,
        o.ticked(auto_hide, None).hide_delay == o.hide_delay,
        o.ticked(auto_hide, Some(view)).ticks == o.ticks + 1,
        o.ticked(auto_hide, None).ticks == o.ticks + 1,
{
}

/// After that, a tick with the game or the overlay in front starts the count anew, and brings the
/// overlay back where it cannot be seen. One with neither in front while it can be seen adds to the
/// count, and takes it away from the third on. One while it cannot be seen changes nothing.
pub proof fn law_when_the_overlay_hides(o: Overlay, view: OverlayView)
    requires
        20 <= o.ticks < u64::MAX,
        o.hide_delay < u64::MAX,
    ensures
        ({
            let after = o.ticked(true, Some(view));
            let action = o.action_at(true, Some(view));
            let in_front = view.game_in_front || view.overlay_in_front;
            let seen = view.visible && !view.minimised;
            &&& in_front ==> after.hide_delay == 0
            &&& in_front && seen ==> action == OverlayAction::Keep
            &&& in_front && !seen ==> action == OverlayAction::Reveal
            &&& !in_front && seen ==> after.hide_delay == o.hide_delay + 1 && action == if
                o.hide_delay + 1 >= 3 {
                OverlayAction::Minimise
            } else {
                OverlayAction::Keep
            }
            &&& !in_front && !seen ==> after.hide_delay == o.hide_delay && action
                == OverlayAction::Keep
        }),
{
}

/// Positions are kept at every tenth tick.
pub proof fn law_positions_are_kept_at_every_tenth_tick(ticks: u64)
    ensures
        ticks % overlay::KEEP_TICKS == 0 <==> ticks % 10 == 0,
{
}

/// What stands behind the last slash of a link is the name of its file; a link without one is a name
/// itself.
pub proof fn law_a_file_goes_by_what_follows_the_last_slash(dir: Seq<char>, name: Seq<char>)
    requires
        !name.contains('/'),
    ensures
        update::after_last_slash(dir + seq!['/'] + name) == name,
        update::after_last_slash(name) == name,
{
    let url = dir + seq!['/'] + name;
    text_laws::law_the_last_place_is_the_last(url, '/');
    text_laws::law_the_last_place_is_the_last(name, '/');
    let k = dir.len() as int;
    assert(url[k] == '/');
    assert(url.contains(url[k]));
    let i = bytes::last_at(url, '/')->0;
    if i > k {
        assert(url[i] == name[i - k - 1]);
        assert(name.contains(name[i - k - 1]));
    }
    if i < k {
        assert(url[k] != '/');
    }
    assert(url.skip(k + 1) =~= name);
    match bytes::last_at(name, '/') {
        Some(j) => {
            assert(name.contains(name[j]));
        },
        None => {},
    }
}

/// The percentage is the whole number of hundredths that are there, and a hundred where all is there
/// or more.
pub proof fn law_a_percentage_counts_whole_hundredths(downloaded: u64, total: u64)
    requires
        total > 0,
    ensures
        ({
            let p = update::percent(downloaded, total);
            &&& p <= 100
            &&& p * total <= 100 * downloaded
            &&& p < 100 ==> 100 * downloaded < (p + 1) * total
        }),
{
    let d = downloaded * 100;
    let t = total as int;
    let q = d / t;
    vstd::arithmetic::div_mod::lemma_fundamental_div_mod(d, t);
    vstd::arithmetic::div_mod::lemma_div_pos_is_pos(d, t);
    assert(t * q <= d && d < t * q + t);
    assert(q * t == t * q) by (nonlinear_arith);
    assert((q + 1) * t == t * q + t) by (nonlinear_arith);
    if q > 100 {
        assert(100 * t <= q * t) by (nonlinear_arith)
            requires
                q > 100,
                t > 0,
        ;
    }
}

/// Every piece adds its length; what is announced is the percentage that is there then, where the
/// size of the whole is known, and stays where it is not.
pub proof fn law_pieces_add_up(d: Download, a: u64, b: u64)
    requires
        d.downloaded + a + b <= u64::MAX,
    ensures
        d.received(a).downloaded == d.downloaded + a,
        d.received(a).received(b).downloaded == d.downloaded + a + b,
        d.received(a).received(b) == d.received((a + b) as u64),
        d.received(a).total == d.total,
        d.total == 0 ==> d.received(a).announced == d.announced,
        d.total > 0 ==> d.received(a).announced == update::percent(
            (d.downloaded + a) as u64,
            d.total,
        ),
{
}

/// What is asked says the version that is there, and after that the one that can be had.
pub proof fn law_the_question_names_both_versions(current: Seq<char>, latest: Seq<char>)
    ensures
        ({
            let s = update::prompt(current, latest);
            let n = current.len() as int;
            let m = latest.len() as int;
            &&& s.len() == 37 + n + 9 + m + 27
            &&& s.subrange(37, 37 + n) == current
            &&& s.subrange(46 + n, 46 + n + m) == latest
        }),
{
    reveal_strlit("A new update is available!\n\nCurrent: ");
    reveal_strlit("\nLatest: ");
    reveal_strlit("\n\nDownload and install now?");
    let s = update::prompt(current, latest);
    let n = current.len() as int;
    let m = latest.len() as int;
    assert(s.subrange(37, 37 + n) =~= current);
    assert(s.subrange(46 + n, 46 + n + m) =~= latest);
}

/// A text in quotes is the prefix, a quote, the text and a quote.
pub proof fn law_quotes_stand_around_the_text(prefix: Seq<char>, s: Seq<char>)
    ensures
        update::quoted(prefix, s) == (prefix.push('"') + s).push('"'),
{
    reveal_strlit("\"");
    assert(update::quoted(prefix, s) =~= (prefix.push('"') + s).push('"'));
}

/// Each side has its word, and where nothing is to be said there is none.
pub proof fn law_each_side_has_its_word(side: Side)
    ensures
        side == Side::Right <==> side.word() == "right"@,
        side == Side::Left <==> side.word() == "left"@,
        side == Side::Below <==> side.word() == "below"@,
        side == Side::Above <==> side.word() == "above"@,
        side == Side::Unsaid <==> side.word().len() == 0,
{
    reveal_strlit("right");
    reveal_strlit("left");
    reveal_strlit("below");
    reveal_strlit("above");
    reveal_strlit("");
    assert("right"@[0] == 'r' && "left"@[0] == 'l' && "below"@[0] == 'b' && "above"@[0] == 'a');
    assert("right"@.len() == 5 && "left"@.len() == 4 && ""@.len() == 0);
    let w = side.word();
    assert(w.len() > 0 ==> w[0] == match side {
        Side::Right => 'r',
        Side::Left => 'l',
        Side::Below => 'b',
        Side::Above => 'a',
        Side::Unsaid => ' ',
    });
}

/// What is said of a screen that is not there names it by its place in the system's list.
pub proof fn law_a_missing_screen_is_named(index: usize)
    ensures
        ({
            let s = MonitorError::NotConnected { index }.text();
            let n = text::decimal(index as int).len() as int;
            &&& s.len() == 8 + n + 17
            &&& s.subrange(8, 8 + n) == text::decimal(index as int)
        }),
{
    reveal_strlit("monitor ");
    reveal_strlit(" is not connected");
    let s = MonitorError::NotConnected { index }.text();
    let n = text::decimal(index as int).len() as int;
    assert(s.subrange(8, 8 + n) =~= text::decimal(index as int));
}

} // verus!

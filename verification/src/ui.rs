//! What the tray and the notifier show, computed from plain values the
//! snapshot and the clock provide. Rendering and delivery stay outside this
//! crate; the words, colors and pixels are decided here.

use vstd::prelude::*;

use crate::label::{append_dec, append_pad2, dec_of, pad2_of};
use crate::status::{EffectiveStatus, StatusModel};

verus! {

/// How urgently a notification is delivered.
#[derive(Clone, Copy, PartialEq, Eq, Structural, Debug)]
pub enum UrgencyLevel {
    Normal,
    Critical,
}

/// Everything the notification sink needs for one event.
pub struct NotificationContent {
    pub summary: String,
    pub body: String,
    pub icon: String,
    pub urgency: UrgencyLevel,
    pub timeout_ms: u32,
}

/// The canned notification for a target transition: recovery at normal
/// urgency, loss at critical urgency, each parameterized by the target name.
pub fn notification_content(target: &String, now_up: bool) -> (r: NotificationContent)
    ensures
        r.summary@ == "Cosmic Pinger"@,
        r.timeout_ms == 5000,
        now_up ==> r.body@ == target@ + " is back online."@ && r.icon@
            == "network-transmit-receive"@ && r.urgency is Normal,
        !now_up ==> r.body@ == target@ + " is OFFLINE!"@ && r.icon@ == "network-error"@
            && r.urgency is Critical,
{
    if now_up {
        let mut body = target.clone();
        body.append(" is back online.");
        NotificationContent {
            summary: String::from_str("Cosmic Pinger"),
            body,
            icon: String::from_str("network-transmit-receive"),
            urgency: UrgencyLevel::Normal,
            timeout_ms: 5000,
        }
    } else {
        let mut body = target.clone();
        body.append(" is OFFLINE!");
        NotificationContent {
            summary: String::from_str("Cosmic Pinger"),
            body,
            icon: String::from_str("network-error"),
            urgency: UrgencyLevel::Critical,
            timeout_ms: 5000,
        }
    }
}

/// The tray icon color: yellow while the first cycle is pending, green when
/// everything is up, red otherwise.
pub fn icon_color(first_cycle_pending: bool, aggregate_up: bool) -> (r: (u8, u8, u8))
    ensures
        first_cycle_pending ==> r == (255u8, 255u8, 0u8),
        !first_cycle_pending && aggregate_up ==> r == (0u8, 255u8, 0u8),
        !first_cycle_pending && !aggregate_up ==> r == (255u8, 0u8, 0u8),
{
    if first_cycle_pending {
        (255, 255, 0)
    } else if aggregate_up {
        (0, 255, 0)
    } else {
        (255, 0, 0)
    }
}

/// A 32 x 32 pixel buffer in ARGB byte order, fully opaque, one color.
pub fn icon_pixels(r: u8, g: u8, b: u8) -> (data: Vec<u8>)
    ensures
        data@.len() == 4096,
        forall|j: int|
            0 <= j < 4096 ==> data@[j] == (if j % 4 == 0 {
                255u8
            } else if j % 4 == 1 {
                r
            } else if j % 4 == 2 {
                g
            } else {
                b
            }),
{
    let mut data: Vec<u8> = Vec::new();
    let mut k: usize = 0;
    while k < 1024
        invariant
            k <= 1024,
            data@.len() == 4 * k,
            forall|j: int|
                0 <= j < 4 * k ==> data@[j] == (if j % 4 == 0 {
                    255u8
                } else if j % 4 == 1 {
                    r
                } else if j % 4 == 2 {
                    g
                } else {
                    b
                }),
        decreases 1024 - k,
    {
        data.push(255);
        data.push(r);
        data.push(g);
        data.push(b);
        k += 1;
    }
    data
}

/// The tray title: the app name with an OK or WARN marker and the minutes
/// since the last check, or an ellipsis before the first one.
pub fn title_text(have_run: bool, aggregate_up: bool, mins: u64) -> (r: String)
    ensures
        !have_run ==> r@ == "Cosmic Pinger ..."@,
        have_run && aggregate_up ==> r@ == "Cosmic Pinger OK ("@ + dec_of(mins as int) + "m)"@,
        have_run && !aggregate_up ==> r@ == "Cosmic Pinger WARN ("@ + dec_of(mins as int)
            + "m)"@,
{
    if !have_run {
        String::from_str("Cosmic Pinger ...")
    } else {
        let mut s = if aggregate_up {
            String::from_str("Cosmic Pinger OK (")
        } else {
            String::from_str("Cosmic Pinger WARN (")
        };
        append_dec(&mut s, mins);
        s.append("m)");
        s
    }
}

/// The tooltip description: starting, a monitored-site count, or an offline
/// warning.
pub fn tooltip_text(first_run: bool, aggregate_up: bool, count: u64) -> (r: String)
    ensures
        first_run ==> r@ == "Starting..."@,
        !first_run && aggregate_up ==> r@ == "Online - "@ + dec_of(count as int)
            + " sites monitored"@,
        !first_run && !aggregate_up ==> r@ == "OFFLINE DETECTED"@,
{
    if first_run {
        String::from_str("Starting...")
    } else if aggregate_up {
        let mut s = String::from_str("Online - ");
        append_dec(&mut s, count);
        s.append(" sites monitored");
        s
    } else {
        String::from_str("OFFLINE DETECTED")
    }
}

/// The menu line for the last-check age: minutes and seconds once a minute
/// has passed, seconds alone below that, a waiting line before the first
/// check.
pub fn last_check_label(have_run: bool, mins: u64, secs: u64) -> (r: String)
    ensures
        !have_run ==> r@ == "Waiting for first check..."@,
        have_run && mins > 0 ==> r@ == "Last check: "@ + dec_of(mins as int) + " min "@ + dec_of(
            secs as int,
        ) + " sec ago"@,
        have_run && mins == 0 ==> r@ == "Last check: "@ + dec_of(secs as int) + " sec ago"@,
{
    if !have_run {
        String::from_str("Waiting for first check...")
    } else if mins > 0 {
        let mut s = String::from_str("Last check: ");
        append_dec(&mut s, mins);
        s.append(" min ");
        append_dec(&mut s, secs);
        s.append(" sec ago");
        s
    } else {
        let mut s = String::from_str("Last check: ");
        append_dec(&mut s, secs);
        s.append(" sec ago");
        s
    }
}

/// The menu line shown for one target: an up/down indicator, the target,
/// and its current label.
pub open spec fn menu_line_of(m: StatusModel) -> Seq<char> {
    (if m.up {
        "UP "@
    } else {
        "DOWN "@
    }) + m.target + " ("@ + m.label + ")"@
}

/// Formats one per-target menu line.
pub fn menu_line(st: &EffectiveStatus) -> (r: String)
    ensures
        r@ == menu_line_of(st@),
{
    let mut s = if st.effective_reachable {
        String::from_str("UP ")
    } else {
        String::from_str("DOWN ")
    };
    s.append(st.target.as_str());
    s.append(" (");
    s.append(st.display_label.as_str());
    s.append(")");
    s
}

/// A clock reading "HH:MM:SS" for the snapshot timestamp.
pub fn clock_text(h: u64, m: u64, s: u64) -> (r: String)
    ensures
        r@ == pad2_of(h as int) + ":"@ + pad2_of(m as int) + ":"@ + pad2_of(s as int),
{
    let mut out = String::new();
    append_pad2(&mut out, h);
    out.append(":");
    append_pad2(&mut out, m);
    out.append(":");
    append_pad2(&mut out, s);
    proof {
        assert(out@ =~= pad2_of(h as int) + ":"@ + pad2_of(m as int) + ":"@ + pad2_of(s as int));
    }
    out
}

} // verus!

//! Header and separator lines of the aircraft table.
use vstd::prelude::*;
use vstd::string::StringExecFns;

verus! {

/// The header line: column titles aligned with the row format; metric units (m, km/h) or
/// imperial (ft, kt); a distance column when `show_dist`.
pub open spec fn header_text(metric: bool, show_dist: bool) -> Seq<char> {
    "ICAO    Callsign Sqwk  "@ + (if metric {
        "   m "@
    } else {
        "  ft "@
    }) + " "@ + (if metric {
        "km/h"@
    } else {
        "  kt"@
    }) + "      Lat      Lon  Hdg Msgs Seen   RSSI"@ + (if show_dist {
        "  Dist"@
    } else {
        ""@
    })
}

/// The table header (see `header_text`).
pub fn format_header(metric: bool, show_dist: bool) -> (s: String)
    ensures
        s@ == header_text(metric, show_dist),
{
    let mut s = String::from_str("ICAO    Callsign Sqwk  ");
    if metric {
        s.append("   m ");
    } else {
        s.append("  ft ");
    }
    s.append(" ");
    if metric {
        s.append("km/h");
    } else {
        s.append("  kt");
    }
    s.append("      Lat      Lon  Hdg Msgs Seen   RSSI");
    if show_dist {
        s.append("  Dist");
    } else {
        s.append("");
    }
    s
}

/// The line of dashes under the column titles.
pub open spec fn separator_text(show_dist: bool) -> Seq<char> {
    "──────  ──────── ────  ───── ────  ─────── ────────  ─── ──── ────  ─────"@ + (if show_dist {
        "  ────"@
    } else {
        ""@
    })
}

/// The table separator (see `separator_text`).
pub fn format_separator(show_dist: bool) -> (s: String)
    ensures
        s@ == separator_text(show_dist),
{
    let mut s = String::from_str(
        "──────  ──────── ────  ───── ────  ─────── ────────  ─── ──── ────  ─────",
    );
    if show_dist {
        s.append("  ────");
    } else {
        s.append("");
    }
    s
}

} // verus!

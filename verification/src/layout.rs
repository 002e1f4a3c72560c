//! Registration picker and link data from the native Register1 nib.
use vstd::prelude::*;

verus! {

pub const TERMS_URL: &'static str = "http://www.rovio.com/eula";

pub const PRIVACY_URL: &'static str = "http://www.rovio.com/privacy";

pub const DATE_PLACEHOLDER_PREFIX: &'static str = " ";

pub const DATE_VALUE_PREFIX: &'static str = "   ";

/// Month picker rows: strings-table key and English fallback.
pub const MONTH_LABELS: [(&'static str, &'static str); 12] = [
    ("rovio_id_month_jan", "Jan"),
    ("rovio_id_month_feb", "Feb"),
    ("rovio_id_month_mar", "Mar"),
    ("rovio_id_month_apr", "Apr"),
    ("rovio_id_month_may", "May"),
    ("rovio_id_month_jun", "Jun"),
    ("rovio_id_month_jul", "Jul"),
    ("rovio_id_month_aug", "Aug"),
    ("rovio_id_month_sep", "Sep"),
    ("rovio_id_month_oct", "Oct"),
    ("rovio_id_month_nov", "Nov"),
    ("rovio_id_month_dec", "Dec"),
];

/// Rows of a date picker: days stay 1..=31 even for February, months 1..=12,
/// years from 1900 through the current local-calendar year.
pub open spec fn picker_rows(tag: u8, current_year: i32) -> int {
    if tag == 0 {
        31
    } else if tag == 1 {
        12
    } else if tag == 2 {
        if current_year - 1899 > 0 {
            current_year - 1899
        } else {
            0
        }
    } else {
        0
    }
}

pub fn picker_row_count(tag: u8, current_year: i32) -> (rows: usize)
    ensures
        rows as int == picker_rows(tag, current_year),
        rows <= i32::MAX - 1899,
{
    match tag {
        0 => 31,
        1 => 12,
        2 => {
            if current_year > 1899 {
                (current_year - 1899) as usize
            } else {
                0
            }
        },
        _ => 0,
    }
}

/// Picker tag of a date field outlet: day 0, month 1, year 2.
pub open spec fn date_tag_spec(name: Seq<char>) -> Option<u8> {
    if name == "dayTextField"@ {
        Some(0)
    } else if name == "monthTextField"@ {
        Some(1)
    } else if name == "yearTextField"@ {
        Some(2)
    } else {
        None
    }
}

pub fn date_tag(name: &str) -> (tag: Option<u8>)
    ensures
        tag == date_tag_spec(name@),
{
    if crate::text::same_text(name, "dayTextField") {
        Some(0)
    } else if crate::text::same_text(name, "monthTextField") {
        Some(1)
    } else if crate::text::same_text(name, "yearTextField") {
        Some(2)
    } else {
        None
    }
}

} // verus!

//! What reading samples from files decides before any I/O: which column holds
//! time, and which reader a file extension selects.
use crate::formula::analysis::names_view;
use crate::text::{
    ascii_lower, file_extension, path_extension, string_of, to_ascii_lowercase, to_lowercase,
    trim, trimmed, unicode_lowercase,
};
use vstd::prelude::*;
use vstd::string::*;

verus! {

/// How many header names are taken for the time column.
pub const TIME_FIELD_COUNT: usize = 10;

/// The header names taken for the time column, in order of preference.
pub open spec fn time_field(k: int) -> Seq<char> {
    if k == 0 {
        "time"@
    } else if k == 1 {
        "timestamp"@
    } else if k == 2 {
        "t"@
    } else if k == 3 {
        "time_s"@
    } else if k == 4 {
        "time_sec"@
    } else if k == 5 {
        "time_ms"@
    } else if k == 6 {
        "time_ns"@
    } else if k == 7 {
        "elapsed"@
    } else if k == 8 {
        "elapsed_time"@
    } else {
        "epoch"@
    }
}

fn time_field_name(k: usize) -> (r: &'static str)
    requires
        k < TIME_FIELD_COUNT,
    ensures
        r@ == time_field(k as int),
{
    if k == 0 {
        "time"
    } else if k == 1 {
        "timestamp"
    } else if k == 2 {
        "t"
    } else if k == 3 {
        "time_s"
    } else if k == 4 {
        "time_sec"
    } else if k == 5 {
        "time_ms"
    } else if k == 6 {
        "time_ns"
    } else if k == 7 {
        "elapsed"
    } else if k == 8 {
        "elapsed_time"
    } else {
        "epoch"
    }
}

/// A header as it is compared: trimmed, then lowercased.
pub open spec fn normalized(h: Seq<char>) -> Seq<char> {
    unicode_lowercase(trimmed(h))
}

/// The first header from `j` on whose normalized text is `name`.
pub open spec fn position_from(headers: Seq<Seq<char>>, name: Seq<char>, j: int) -> Option<int>
    decreases headers.len() - j,
{
    if j < 0 || j >= headers.len() {
        None
    } else if normalized(headers[j]) == name {
        Some(j)
    } else {
        position_from(headers, name, j + 1)
    }
}

/// The column of the first time name, from the `k`-th on, that some header has.
pub open spec fn time_column_from(headers: Seq<Seq<char>>, k: int) -> Option<int>
    decreases TIME_FIELD_COUNT - k,
{
    if k < 0 || k >= TIME_FIELD_COUNT {
        None
    } else {
        match position_from(headers, time_field(k), 0) {
            Some(j) => Some(j),
            None => time_column_from(headers, k + 1),
        }
    }
}

/// The time column: the most preferred time name that some header spells
/// (ignoring surrounding white space and case), at its first header.
pub fn detect_time_column(headers: &[String]) -> (r: Option<usize>)
    ensures
        match (r, time_column_from(names_view(headers@), 0)) {
            (Some(j), Some(sj)) => j == sj,
            (None, None) => true,
            _ => false,
        },
{
    let ghost hs = names_view(headers@);
    let mut normal: Vec<String> = Vec::new();
    let mut j: usize = 0;
    while j < headers.len()
        invariant
            j <= headers@.len(),
            hs == names_view(headers@),
            normal@.len() == j,
            forall|i: int| 0 <= i < j ==> (#[trigger] normal@[i])@ == normalized(hs[i]),
        decreases headers@.len() - j,
    {
        let t = trim(headers[j].as_str());
        let lower = to_lowercase(t.as_str());
        normal.push(lower);
        j = j + 1;
    }
    let mut k: usize = 0;
    while k < TIME_FIELD_COUNT
        invariant
            k <= TIME_FIELD_COUNT,
            hs == names_view(headers@),
            normal@.len() == hs.len(),
            forall|i: int| 0 <= i < hs.len() ==> (#[trigger] normal@[i])@ == normalized(hs[i]),
            time_column_from(hs, 0) == time_column_from(hs, k as int),
        decreases TIME_FIELD_COUNT - k,
    {
        let name = string_of(time_field_name(k));
        let mut i: usize = 0;
        while i < normal.len()
            invariant
                i <= normal@.len() == hs.len(),
                hs == names_view(headers@),
                name@ == time_field(k as int),
                k < TIME_FIELD_COUNT,
                forall|m: int| 0 <= m < hs.len() ==> (#[trigger] normal@[m])@ == normalized(hs[m]),
                position_from(hs, name@, 0) == position_from(hs, name@, i as int),
                time_column_from(hs, 0) == time_column_from(hs, k as int),
            decreases normal@.len() - i,
        {
            if normal[i] == name {
                proof {
                    assert(normal@[i as int]@ == name@);
                    assert(position_from(hs, name@, i as int) == Some(i as int));
                    assert(position_from(hs, time_field(k as int), 0) == Some(i as int));
                    assert(time_column_from(hs, k as int) == Some(i as int));
                }
                return Some(i);
            }
            i = i + 1;
        }
        k = k + 1;
    }
    None
}

/// The lowercased extension of a file path, or the empty string when it has none.
pub open spec fn lowercase_extension(path: Seq<char>) -> Seq<char> {
    let e = match path_extension(path) {
        Some(e) => e,
        None => Seq::empty(),
    };
    e.map_values(|c: char| ascii_lower(c))
}

/// The extension of a file path, in ASCII lowercase, or `""` when it has none.
pub fn extension(path: &str) -> (r: String)
    ensures
        r@ == lowercase_extension(path@),
{
    match file_extension(path) {
        Some(e) => to_ascii_lowercase(e.as_str()),
        None => {
            let r = String::new();
            proof {
                assert(r@ =~= Seq::<char>::empty().map_values(|c: char| ascii_lower(c)));
            }
            r
        },
    }
}

} // verus!

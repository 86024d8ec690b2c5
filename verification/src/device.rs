//! Choosing the audio input device.

use vstd::prelude::*;

use crate::text::{chars_of, lowercase, occurs_at, str_eq, to_lowercase};

verus! {

/// What device selection reads of an input device.
pub struct DeviceInfo {
    /// The system's identifier (e.g. a WASAPI endpoint id)
    pub id: String,
    /// The human-readable name
    pub name: String,
}

/// Whether `needle` occurs in `hay` (an empty needle occurs everywhere).
pub open spec fn contains(hay: Seq<char>, needle: Seq<char>) -> bool {
    exists|i: int|
        0 <= i <= hay.len() - needle.len() && #[trigger] hay.subrange(i, i + needle.len())
            == needle
}

/// Whether `needle` occurs in `hay`, as `str::contains` tells.
pub fn str_contains(hay: &str, needle: &str) -> (r: bool)
    ensures
        r == contains(hay@, needle@),
{
    let hs = chars_of(hay);
    let ns = chars_of(needle);
    if ns.len() > hs.len() {
        return false;
    }
    let last = hs.len() - ns.len();
    let mut i: usize = 0;
    loop
        invariant
            hs@ == hay@,
            ns@ == needle@,
            last == hs.len() - ns.len(),
            i <= last,
            forall|j: int| 0 <= j < i ==> #[trigger] hay@.subrange(j, j + needle@.len()) != needle@,
        decreases last - i,
    {
        assert(hay@.subrange(i as int, i + needle@.len()) =~= hs@.skip(i as int).take(
            ns.len() as int,
        ));
        if occurs_at(&hs, i, &ns) {
            return true;
        }
        if i == last {
            return false;
        }
        i = i + 1;
    }
}

/// `s` without the character `c` at either end, as `str::trim_matches`
/// with a `char`.
pub open spec fn strip_char(s: Seq<char>, c: char) -> Seq<char>
    decreases s.len(),
{
    if s.len() > 0 && s[0] == c {
        strip_char(s.drop_first(), c)
    } else if s.len() > 0 && s.last() == c {
        strip_char(s.drop_last(), c)
    } else {
        s
    }
}

/// `s` without `c` at either end; the result borrows from `s`.
pub fn strip_char_str(s: &str, c: char) -> (r: &str)
    ensures
        r@ == strip_char(s@, c),
{
    let cs = chars_of(s);
    let mut i: usize = 0;
    let mut j: usize = cs.len();
    assert(s@.subrange(0, cs.len() as int) =~= s@);
    while i < j
        invariant
            cs@ == s@,
            i <= j <= cs.len(),
            strip_char(s@, c) == strip_char(s@.subrange(i as int, j as int), c),
        ensures
            i <= j <= cs.len(),
            strip_char(s@, c) == strip_char(s@.subrange(i as int, j as int), c),
            i == j || (s@[i as int] != c && s@[j - 1] != c),
        decreases j - i,
    {
        if cs[i] == c {
            assert(s@.subrange(i as int, j as int).drop_first() =~= s@.subrange(i + 1, j as int));
            i = i + 1;
        } else if cs[j - 1] == c {
            assert(s@.subrange(i as int, j as int).drop_last() =~= s@.subrange(i as int, j - 1));
            j = j - 1;
        } else {
            break;
        }
    }
    s.substring_char(i, j)
}

/// A device identifier without surrounding braces: `{` stripped from both
/// ends, then `}`.
pub open spec fn bare_id(id: Seq<char>) -> Seq<char> {
    strip_char(strip_char(id, '{'), '}')
}

/// Whether either of two texts occurs in the other.
pub open spec fn overlaps(a: Seq<char>, b: Seq<char>) -> bool {
    contains(a, b) || contains(b, a)
}

/// Whether a device's identifier and the default device's identifier, both
/// without braces, occur one in the other.
pub open spec fn id_matches(dev: DeviceInfo, default_id: Seq<char>) -> bool {
    overlaps(bare_id(dev.id@), bare_id(default_id))
}

/// Whether a device's name and the default device's description, both in
/// lower case, occur one in the other.
pub open spec fn name_matches(dev: DeviceInfo, default_display: Seq<char>) -> bool {
    overlaps(lowercase(default_display), lowercase(dev.name@))
}

/// How the system's default input device was found in the device list.
#[derive(Clone, Copy, Debug, PartialEq, Eq, Structural)]
pub enum DefaultMatch {
    /// The first device whose identifier matches
    ById(usize),
    /// No identifier matches; the first device whose name matches
    ByName(usize),
    /// Nothing matches
    Unmatched,
}

/// The first position where `p` holds.
pub open spec fn first_where(n: int, p: spec_fn(int) -> bool) -> Option<int>
    decreases n,
{
    if n <= 0 {
        None
    } else {
        match first_where(n - 1, p) {
            Some(i) => Some(i),
            None => if p(n - 1) {
                Some(n - 1)
            } else {
                None
            },
        }
    }
}

pub proof fn lemma_first_where(n: int, p: spec_fn(int) -> bool)
    ensures
        match first_where(n, p) {
            Some(i) => 0 <= i < n && p(i) && forall|j: int| 0 <= j < i ==> !#[trigger] p(j),
            None => forall|j: int| 0 <= j < n ==> !#[trigger] p(j),
        },
    decreases n,
{
    if n > 0 {
        lemma_first_where(n - 1, p);
    }
}

/// Where the default device stands in the list: the first device whose
/// identifier matches, else the first whose name matches.
pub open spec fn default_match(
    devices: Seq<DeviceInfo>,
    default_id: Seq<char>,
    default_display: Seq<char>,
) -> DefaultMatch {
    match first_where(devices.len() as int, |i: int| id_matches(devices[i], default_id)) {
        Some(i) => DefaultMatch::ById(i as usize),
        None => match first_where(
            devices.len() as int,
            |i: int| name_matches(devices[i], default_display),
        ) {
            Some(i) => DefaultMatch::ByName(i as usize),
            None => DefaultMatch::Unmatched,
        },
    }
}

/// Finds the system's default input device, known by its raw identifier
/// `default_id` and its description `default_display`, in the device list:
/// by identifier first (braces ignored, either one may contain the other),
/// then by name (letter case ignored, either may contain the other).
pub fn match_default_device(devices: &[DeviceInfo], default_id: &str, default_display: &str) -> (r:
    DefaultMatch)
    ensures
        r == default_match(devices@, default_id@, default_display@),
{
    let ghost pid = |i: int| id_matches(devices@[i], default_id@);
    let ghost pname = |i: int| name_matches(devices@[i], default_display@);
    proof {
        lemma_first_where(devices@.len() as int, pid);
        lemma_first_where(devices@.len() as int, pname);
    }
    let wanted = strip_char_str(strip_char_str(default_id, '{'), '}');
    let mut i: usize = 0;
    while i < devices.len()
        invariant
            i <= devices@.len(),
            wanted@ == bare_id(default_id@),
            pid == (|i: int| id_matches(devices@[i], default_id@)),
            forall|j: int| 0 <= j < i ==> !#[trigger] pid(j),
        decreases devices.len() - i,
    {
        let dev_id = strip_char_str(strip_char_str(devices[i].id.as_str(), '{'), '}');
        if str_contains(dev_id, wanted) || str_contains(wanted, dev_id) {
            proof {
                assert(pid(i as int));
                lemma_first_where(devices@.len() as int, pid);
                match first_where(devices@.len() as int, pid) {
                    Some(k) => {
                        assert(!(k < i));
                        assert(!(i < k));
                    },
                    None => {},
                }
            }
            return DefaultMatch::ById(i);
        }
        i = i + 1;
    }
    let display = to_lowercase(default_display);
    let mut i: usize = 0;
    while i < devices.len()
        invariant
            i <= devices@.len(),
            display@ == lowercase(default_display@),
            pid == (|i: int| id_matches(devices@[i], default_id@)),
            pname == (|i: int| name_matches(devices@[i], default_display@)),
            forall|j: int| 0 <= j < devices@.len() ==> !#[trigger] pid(j),
            forall|j: int| 0 <= j < i ==> !#[trigger] pname(j),
        decreases devices.len() - i,
    {
        let name = to_lowercase(devices[i].name.as_str());
        if str_contains(display.as_str(), name.as_str()) || str_contains(
            name.as_str(),
            display.as_str(),
        ) {
            proof {
                assert(pname(i as int));
                lemma_first_where(devices@.len() as int, pname);
                lemma_first_where(devices@.len() as int, pid);
                assert(first_where(devices@.len() as int, pid) is None);
                match first_where(devices@.len() as int, pname) {
                    Some(k) => {
                        assert(!(k < i));
                        assert(!(i < k));
                    },
                    None => {},
                }
            }
            return DefaultMatch::ByName(i);
        }
        i = i + 1;
    }
    DefaultMatch::Unmatched
}

/// The position of the first device whose identifier or name is `name`.
pub open spec fn named_device(devices: Seq<DeviceInfo>, name: Seq<char>) -> Option<int> {
    first_where(
        devices.len() as int,
        |i: int| devices[i].id@ == name || devices[i].name@ == name,
    )
}

/// Finds the first device whose identifier or name is exactly `name`.
pub fn find_device(devices: &[DeviceInfo], name: &str) -> (r: Option<usize>)
    ensures
        match r {
            Some(i) => named_device(devices@, name@) == Some(i as int),
            None => named_device(devices@, name@) is None,
        },
{
    let ghost p = |i: int| devices@[i].id@ == name@ || devices@[i].name@ == name@;
    proof {
        lemma_first_where(devices@.len() as int, p);
    }
    let mut i: usize = 0;
    while i < devices.len()
        invariant
            i <= devices@.len(),
            p == (|i: int| devices@[i].id@ == name@ || devices@[i].name@ == name@),
            forall|j: int| 0 <= j < i ==> !#[trigger] p(j),
        decreases devices.len() - i,
    {
        if str_eq(devices[i].id.as_str(), name) || str_eq(devices[i].name.as_str(), name) {
            proof {
                assert(p(i as int));
                lemma_first_where(devices@.len() as int, p);
                match first_where(devices@.len() as int, p) {
                    Some(k) => {
                        assert(!(k < i));
                        assert(!(i < k));
                    },
                    None => {},
                }
            }
            return Some(i);
        }
        i = i + 1;
    }
    None
}

/// What the `--device` value asks for.
#[derive(Clone, Copy, Debug, PartialEq, Eq, Structural)]
pub enum DeviceChoice {
    /// No device was given
    Unspecified,
    /// `auto` or empty: the system's default input device
    SystemDefault,
    /// The device at this position matches the name
    Listed(usize),
    /// No device matches the name
    NotFound,
}

/// What the `--device` value chooses among the devices.
pub open spec fn device_choice(name: Option<Seq<char>>, devices: Seq<DeviceInfo>) -> DeviceChoice {
    match name {
        None => DeviceChoice::Unspecified,
        Some(n) => if n == "auto"@ || n.len() == 0 {
            DeviceChoice::SystemDefault
        } else {
            match named_device(devices, n) {
                Some(i) => DeviceChoice::Listed(i as usize),
                None => DeviceChoice::NotFound,
            }
        },
    }
}

/// Decides what the `--device` value picks: `auto` or an empty value ask for
/// the system's default device; any other value names a device by
/// identifier or name.
pub fn choose_device(name: Option<&str>, devices: &[DeviceInfo]) -> (r: DeviceChoice)
    ensures
        r == device_choice(
            match name {
                Some(n) => Some(n@),
                None => None,
            },
            devices@,
        ),
{
    match name {
        None => DeviceChoice::Unspecified,
        Some(n) => {
            if str_eq(n, "auto") || n.unicode_len() == 0 {
                DeviceChoice::SystemDefault
            } else {
                match find_device(devices, n) {
                    Some(i) => DeviceChoice::Listed(i),
                    None => DeviceChoice::NotFound,
                }
            }
        },
    }
}

/// The device to capture from: the first whose identifier or name is
/// `name`, else the first device of the list.
pub fn find_device_or_first(devices: &[DeviceInfo], name: &str) -> (r: Option<usize>)
    ensures
        r == match named_device(devices@, name@) {
            Some(i) => Some(i as usize),
            None => if devices@.len() > 0 {
                Some(0usize)
            } else {
                None
            },
        },
{
    match find_device(devices, name) {
        Some(i) => Some(i),
        None => if devices.len() > 0 {
            Some(0)
        } else {
            None
        },
    }
}


/// Whether the bare identifiers of a device and of the default device occur
/// one in the other.
pub open spec fn bare_ids_overlap(dev_id: Seq<char>, default_id: Seq<char>) -> bool {
    contains(bare_id(dev_id), bare_id(default_id)) || contains(bare_id(default_id), bare_id(dev_id))
}

/// Whether a device's name and the default device's description, both in
/// lower case, occur one in the other.
pub open spec fn lower_names_overlap(name: Seq<char>, display: Seq<char>) -> bool {
    contains(lowercase(display), lowercase(name)) || contains(lowercase(name), lowercase(display))
}

/// The default device is found by identifier at the first device whose
/// identifier, braces stripped, contains the default's identifier, braces
/// stripped, or is contained in it: either way round.
pub proof fn law_default_found_by_identifier(
    devices: Seq<DeviceInfo>,
    default_id: Seq<char>,
    default_display: Seq<char>,
    i: int,
)
    requires
        0 <= i < devices.len(),
        bare_ids_overlap(devices[i].id@, default_id),
        forall|j: int| 0 <= j < i ==> !bare_ids_overlap(#[trigger] devices[j].id@, default_id),
    ensures
        default_match(devices, default_id, default_display) == DefaultMatch::ById(i as usize),
{
    let p = |k: int| id_matches(devices[k], default_id);
    lemma_first_where(devices.len() as int, p);
    assert(p(i));
    match first_where(devices.len() as int, p) {
        Some(k) => {
            if k < i {
                assert(bare_ids_overlap(devices[k].id@, default_id));
            }
            assert(!(i < k));
        },
        None => {},
    }
}

/// When no identifier overlaps, the default device is found by name at the
/// first device whose lower-case name and the lower-case description occur
/// one in the other.
pub proof fn law_default_found_by_name(
    devices: Seq<DeviceInfo>,
    default_id: Seq<char>,
    default_display: Seq<char>,
    i: int,
)
    requires
        0 <= i < devices.len(),
        forall|j: int| 0 <= j < devices.len() ==> !bare_ids_overlap(#[trigger] devices[j].id@, default_id),
        lower_names_overlap(devices[i].name@, default_display),
        forall|j: int| 0 <= j < i ==> !lower_names_overlap(#[trigger] devices[j].name@, default_display),
    ensures
        default_match(devices, default_id, default_display) == DefaultMatch::ByName(i as usize),
{
    let p = |k: int| id_matches(devices[k], default_id);
    let q = |k: int| name_matches(devices[k], default_display);
    lemma_first_where(devices.len() as int, p);
    lemma_first_where(devices.len() as int, q);
    match first_where(devices.len() as int, p) {
        Some(k) => {
            assert(bare_ids_overlap(devices[k].id@, default_id));
        },
        None => {},
    }
    assert(q(i));
    match first_where(devices.len() as int, q) {
        Some(k) => {
            if k < i {
                assert(lower_names_overlap(devices[k].name@, default_display));
            }
            assert(!(i < k));
        },
        None => {},
    }
}

/// The default device is unmatched exactly when no device overlaps it by
/// identifier and none by name.
pub proof fn law_default_unmatched(
    devices: Seq<DeviceInfo>,
    default_id: Seq<char>,
    default_display: Seq<char>,
)
    ensures
        (default_match(devices, default_id, default_display) == DefaultMatch::Unmatched) <==> (
        forall|j: int|
            0 <= j < devices.len() ==> !bare_ids_overlap(#[trigger] devices[j].id@, default_id)
                && !lower_names_overlap(devices[j].name@, default_display)),
{
    let p = |k: int| id_matches(devices[k], default_id);
    let q = |k: int| name_matches(devices[k], default_display);
    lemma_first_where(devices.len() as int, p);
    lemma_first_where(devices.len() as int, q);
    match first_where(devices.len() as int, p) {
        Some(k) => {
            assert(bare_ids_overlap(devices[k].id@, default_id));
        },
        None => {
            match first_where(devices.len() as int, q) {
                Some(k) => {
                    assert(name_matches(devices[k], default_display));
                    assert(lower_names_overlap(devices[k].name@, default_display));
                },
                None => {
                    assert forall|j: int| 0 <= j < devices.len() implies !bare_ids_overlap(
                        #[trigger] devices[j].id@,
                        default_id,
                    ) && !lower_names_overlap(devices[j].name@, default_display) by {
                        assert(!p(j));
                        assert(!q(j));
                    }
                },
            }
        },
    }
}

} // verus!

//! The event sources' decision logic: given the previous snapshot and a
//! freshly polled value, decide whether the state changed and which
//! context to emit. Polling itself (timers, file reads, platform event
//! streams) is I/O and lives outside the library; these functions are
//! what the polling loops call.

use vstd::prelude::*;
use crate::context::Context;
use crate::text::{digit_char, find_sub, first_sub_at, join_with, str_eq, sub_at};

verus! {

/// One step of the network-toggle source: emits `{became}` exactly when
/// the probed reachability flipped.
pub fn network_step(connected: bool, tmp_connected: bool) -> (r: Option<Context>)
    ensures
        match r {
            None => tmp_connected == connected,
            Some(c) => tmp_connected != connected && c.wf() && c@ == seq![
                (
                    "became"@,
                    if tmp_connected {
                        "connected"@
                    } else {
                        "disconnected"@
                    },
                ),
            ],
        },
{
    if tmp_connected == connected {
        return None;
    }
    let mut context = Context::new();
    let became = if tmp_connected {
        "connected"
    } else {
        "disconnected"
    };
    context.insert("became".to_owned(), became.to_owned());
    proof {
        assert(context@ =~= seq![
            ("became"@, if tmp_connected { "connected"@ } else { "disconnected"@ }),
        ]);
    }
    Some(context)
}

/// One step of the wifi-change source: emits `{old_network, new_network}`
/// exactly when the associated network name changed. The empty string is
/// a valid "no network" value.
pub fn wifi_step(old_ssid: &str, new_ssid: &str) -> (r: Option<Context>)
    ensures
        match r {
            None => new_ssid@ == old_ssid@,
            Some(c) => new_ssid@ != old_ssid@ && c.wf() && c@ == seq![
                ("old_network"@, old_ssid@),
                ("new_network"@, new_ssid@),
            ],
        },
{
    if str_eq(new_ssid, old_ssid) {
        return None;
    }
    let mut context = Context::new();
    context.insert("old_network".to_owned(), old_ssid.to_owned());
    proof {
        reveal_strlit("old_network");
        reveal_strlit("new_network");
        assert(context@.len() == 1 && context@[0].0 == "old_network"@);
        assert(("old_network"@)[0] == 'o');
        assert(("new_network"@)[0] == 'n');
        assert("old_network"@ != "new_network"@);
        assert(!context.has_key("new_network"@));
    }
    context.insert("new_network".to_owned(), new_ssid.to_owned());
    proof {
        assert(context@ =~= seq![("old_network"@, old_ssid@), ("new_network"@, new_ssid@)]);
    }
    Some(context)
}

/// A brightness reading: the current level and the device maximum. The
/// backlight ratio is `level / max`, a value in `[0, 1]`.
#[derive(Clone, Copy, PartialEq, Eq, Structural, Debug)]
pub struct Brightness {
    pub level: u32,
    pub max: u32,
}

impl Brightness {
    /// A reading the ratio is defined for.
    pub open spec fn wf(self) -> bool {
        0 < self.max && self.level <= self.max
    }
}

/// Two readings describe the same ratio.
pub open spec fn same_ratio(a: Brightness, b: Brightness) -> bool {
    a.level * b.max == b.level * a.max
}

/// The first `k` decimal fraction digits of `b / m`, for a remainder
/// `0 <= b < m`.
pub open spec fn frac_digits(b: int, m: int, k: nat) -> Seq<char>
    decreases k,
{
    if k == 0 {
        Seq::empty()
    } else {
        seq![digit_char((10 * b / m) as nat)] + frac_digits((10 * b) % m, m, (k - 1) as nat)
    }
}

/// Drops trailing `'0'` characters.
pub open spec fn trim_zeros(s: Seq<char>) -> Seq<char>
    decreases s.len(),
{
    if s.len() > 0 && s.last() == '0' {
        trim_zeros(s.drop_last())
    } else {
        s
    }
}

/// The decimal string for the ratio `level / max`: `"1"` for a full
/// reading, `"0"` for zero, otherwise `0.` followed by up to six
/// fraction digits with trailing zeros dropped.
pub open spec fn ratio_chars(b: Brightness) -> Seq<char> {
    if b.level == b.max {
        seq!['1']
    } else {
        let ds = trim_zeros(frac_digits(b.level as int, b.max as int, 6));
        if ds.len() == 0 {
            seq!['0']
        } else {
            seq!['0', '.'] + ds
        }
    }
}

/// The digit characters of a digit-value sequence.
pub open spec fn chars_of_digits(ds: Seq<u64>) -> Seq<char> {
    ds.map_values(|d: u64| digit_char(d as nat))
}

/// Formats the ratio `b.level / b.max` as a decimal string.
pub fn format_ratio(b: Brightness) -> (r: String)
    requires
        b.wf(),
    ensures
        r@ == ratio_chars(b),
{
    if b.level == b.max {
        let r = "1".to_owned();
        proof {
            reveal_strlit("1");
            assert(r@ =~= ratio_chars(b));
        }
        return r;
    }
    let m: u64 = b.max as u64;
    let mut rem: u64 = b.level as u64;
    let mut ds: Vec<u64> = Vec::new();
    let mut k: usize = 0;
    while k < 6
        invariant
            0 < m <= u32::MAX,
            rem < m,
            k <= 6,
            ds@.len() == k,
            forall|j: int| 0 <= j < k ==> #[trigger] ds@[j] < 10,
            frac_digits(b.level as int, b.max as int, 6) == chars_of_digits(ds@) + frac_digits(
                rem as int,
                m as int,
                (6 - k) as nat,
            ),
            m == b.max,
        decreases 6 - k,
    {
        let ghost pre = ds@;
        let ghost prem = rem;
        let shifted: u64 = rem * 10;
        let d: u64 = shifted / m;
        rem = shifted % m;
        proof {
            assert(d < 10 && rem < m) by (nonlinear_arith)
                requires
                    prem < m,
                    0 < m,
                    shifted == prem * 10,
                    d == shifted / m,
                    rem == shifted % m,
            ;
        }
        ds.push(d);
        k = k + 1;
        proof {
            assert(10 * (prem as int) == shifted as int);
            assert(frac_digits(prem as int, m as int, (6 - k + 1) as nat) == seq![
                digit_char(d as nat),
            ] + frac_digits(rem as int, m as int, (6 - k) as nat));
            assert(chars_of_digits(ds@) =~= chars_of_digits(pre) + seq![digit_char(d as nat)]);
            assert(chars_of_digits(ds@) + frac_digits(rem as int, m as int, (6 - k) as nat)
                =~= chars_of_digits(pre) + frac_digits(prem as int, m as int, (6 - k + 1) as nat));
        }
    }
    proof {
        assert(frac_digits(rem as int, m as int, 0) =~= Seq::<char>::empty());
        assert(chars_of_digits(ds@) =~= chars_of_digits(ds@) + frac_digits(
            rem as int,
            m as int,
            0,
        ));
        assert(frac_digits(b.level as int, b.max as int, 6) == chars_of_digits(ds@));
    }
    let mut tlen: usize = ds.len();
    proof {
        assert(ds@.take(tlen as int) =~= ds@);
    }
    while tlen > 0 && *(&ds[tlen - 1]) == 0
        invariant
            tlen <= ds@.len(),
            ds@.len() == 6,
            forall|j: int| 0 <= j < 6 ==> #[trigger] ds@[j] < 10,
            trim_zeros(chars_of_digits(ds@)) == trim_zeros(chars_of_digits(ds@.take(tlen as int))),
        decreases tlen,
    {
        proof {
            let cur = chars_of_digits(ds@.take(tlen as int));
            assert(cur.last() == digit_char(ds@[tlen - 1] as nat));
            assert(cur.last() == '0');
            assert(cur.drop_last() =~= chars_of_digits(ds@.take(tlen as int - 1)));
        }
        tlen = tlen - 1;
    }
    proof {
        if tlen > 0 {
            let cur = chars_of_digits(ds@.take(tlen as int));
            assert(cur.last() == digit_char(ds@[tlen - 1] as nat));
            assert(ds@[tlen - 1] != 0);
            assert(cur.last() != '0');
            assert(trim_zeros(cur) == cur);
        } else {
            assert(ds@.take(0) =~= Seq::<u64>::empty());
            assert(chars_of_digits(ds@.take(0)) =~= Seq::<char>::empty());
        }
    }
    if tlen == 0 {
        let r = "0".to_owned();
        proof {
            reveal_strlit("0");
            assert(r@ =~= ratio_chars(b));
        }
        return r;
    }
    let mut r = "0.".to_owned();
    proof {
        reveal_strlit("0.");
    }
    let mut j: usize = 0;
    while j < tlen
        invariant
            j <= tlen,
            tlen <= ds@.len(),
            forall|i: int| 0 <= i < ds@.len() ==> #[trigger] ds@[i] < 10,
            r@ == "0."@ + chars_of_digits(ds@.take(j as int)),
        decreases tlen - j,
    {
        let d = crate::text::u64_string(ds[j]);
        r.append(d.as_str());
        j = j + 1;
        proof {
            assert(crate::text::dec_digits(ds@[j - 1] as nat) =~= seq![
                digit_char(ds@[j - 1] as nat),
            ]);
            assert(chars_of_digits(ds@.take(j as int)) =~= chars_of_digits(
                ds@.take(j as int - 1),
            ).push(digit_char(ds@[j - 1] as nat)));
            assert(r@ =~= "0."@ + chars_of_digits(ds@.take(j as int)));
        }
    }
    proof {
        reveal_strlit("0.");
        assert("0."@ =~= seq!['0', '.']);
        assert(chars_of_digits(ds@.take(tlen as int)) == trim_zeros(chars_of_digits(ds@)));
        assert(r@ =~= ratio_chars(b));
    }
    r
}

/// What the library reads of an enumerated USB device: its platform id
/// and its human-readable description, if the platform offers one.
pub struct UsbDev {
    pub id: String,
    pub description: Option<String>,
}

impl UsbDev {
    /// A value-equal copy.
    pub fn duplicate(&self) -> (r: UsbDev)
        ensures
            dev_view(r) == dev_view(*self),
    {
        let description = match &self.description {
            Some(d) => Some(d.clone()),
            None => None,
        };
        UsbDev { id: self.id.clone(), description }
    }
}

/// A device's identity: its id and description, by contents.
pub open spec fn dev_view(d: UsbDev) -> (Seq<char>, Option<Seq<char>>) {
    (
        d.id@,
        match d.description {
            Some(s) => Some(s@),
            None => None,
        },
    )
}

pub open spec fn dev_views(s: Seq<UsbDev>) -> Seq<(Seq<char>, Option<Seq<char>>)> {
    s.map_values(|d: UsbDev| dev_view(d))
}

/// Whether the two values describe the same device.
pub fn dev_eq(a: &UsbDev, b: &UsbDev) -> (r: bool)
    ensures
        r == (dev_view(*a) == dev_view(*b)),
{
    if !str_eq(a.id.as_str(), b.id.as_str()) {
        return false;
    }
    match (&a.description, &b.description) {
        (Some(x), Some(y)) => str_eq(x.as_str(), y.as_str()),
        (None, None) => true,
        _ => false,
    }
}

/// Whether `list` holds a device with the same identity as `d`.
pub fn contains_dev(list: &Vec<UsbDev>, d: &UsbDev) -> (r: bool)
    ensures
        r == dev_views(list@).contains(dev_view(*d)),
{
    let n = list.len();
    let mut i: usize = 0;
    while i < n
        invariant
            n == list@.len(),
            i <= n,
            forall|j: int| 0 <= j < i ==> dev_views(list@)[j] != dev_view(*d),
        decreases n - i,
    {
        if dev_eq(&list[i], d) {
            proof {
                assert(dev_views(list@)[i as int] == dev_view(*d));
            }
            return true;
        }
        i = i + 1;
    }
    proof {
        if dev_views(list@).contains(dev_view(*d)) {
            let w = choose|w: int|
                0 <= w < dev_views(list@).len() && dev_views(list@)[w] == dev_view(*d);
            assert(dev_views(list@)[w] != dev_view(*d));
        }
    }
    false
}

/// The two lists enumerate the same set of devices.
pub open spec fn same_dev_set(a: Seq<UsbDev>, b: Seq<UsbDev>) -> bool {
    &&& forall|i: int|
        0 <= i < a.len() ==> dev_views(b).contains(#[trigger] dev_views(a)[i])
    &&& forall|i: int|
        0 <= i < b.len() ==> dev_views(a).contains(#[trigger] dev_views(b)[i])
}

pub fn dev_set_eq(a: &Vec<UsbDev>, b: &Vec<UsbDev>) -> (r: bool)
    ensures
        r == same_dev_set(a@, b@),
{
    let n = a.len();
    let mut i: usize = 0;
    while i < n
        invariant
            n == a@.len(),
            i <= n,
            forall|j: int| 0 <= j < i ==> dev_views(b@).contains(#[trigger] dev_views(a@)[j]),
        decreases n - i,
    {
        if !contains_dev(b, &a[i]) {
            proof {
                assert(dev_views(a@)[i as int] == dev_view(a@[i as int]));
            }
            return false;
        }
        proof {
            assert(dev_views(a@)[i as int] == dev_view(a@[i as int]));
        }
        i = i + 1;
    }
    let m = b.len();
    let mut j: usize = 0;
    while j < m
        invariant
            m == b@.len(),
            j <= m,
            forall|i2: int| 0 <= i2 < a@.len() ==> dev_views(b@).contains(
                #[trigger] dev_views(a@)[i2],
            ),
            forall|i2: int| 0 <= i2 < j ==> dev_views(a@).contains(#[trigger] dev_views(b@)[i2]),
        decreases m - j,
    {
        if !contains_dev(a, &b[j]) {
            proof {
                assert(dev_views(b@)[j as int] == dev_view(b@[j as int]));
            }
            return false;
        }
        proof {
            assert(dev_views(b@)[j as int] == dev_view(b@[j as int]));
        }
        j = j + 1;
    }
    true
}

/// The devices of `cur` that `prev` does not hold: the new arrivals, in
/// enumeration order.
pub open spec fn fresh_devs(cur: Seq<UsbDev>, prev: Seq<UsbDev>) -> Seq<UsbDev> {
    cur.filter(|d: UsbDev| !dev_views(prev).contains(dev_view(d)))
}

pub fn usb_diff(cur: &Vec<UsbDev>, prev: &Vec<UsbDev>) -> (r: Vec<UsbDev>)
    ensures
        dev_views(r@) == dev_views(fresh_devs(cur@, prev@)),
{
    let n = cur.len();
    let mut r: Vec<UsbDev> = Vec::new();
    let mut i: usize = 0;
    while i < n
        invariant
            n == cur@.len(),
            i <= n,
            dev_views(r@) =~= dev_views(fresh_devs(cur@.take(i as int), prev@)),
        decreases n - i,
    {
        let ghost pre = r@;
        if !contains_dev(prev, &cur[i]) {
            let d = cur[i].duplicate();
            r.push(d);
        }
        i = i + 1;
        proof {
            reveal(Seq::filter);
            let gi = i as int - 1;
            let pred = |d: UsbDev| !dev_views(prev@).contains(dev_view(d));
            assert(cur@.take(gi + 1).drop_last() =~= cur@.take(gi));
            assert(cur@.take(gi + 1).last() == cur@[gi]);
            assert(fresh_devs(cur@.take(gi + 1), prev@) == if pred(cur@[gi]) {
                fresh_devs(cur@.take(gi), prev@).push(cur@[gi])
            } else {
                fresh_devs(cur@.take(gi), prev@)
            });
            if pred(cur@[gi]) {
                assert(dev_views(r@) =~= dev_views(pre).push(dev_view(cur@[gi])));
                assert(dev_views(fresh_devs(cur@.take(gi + 1), prev@)) =~= dev_views(
                    fresh_devs(cur@.take(gi), prev@),
                ).push(dev_view(cur@[gi])));
            }
            assert(dev_views(r@) =~= dev_views(fresh_devs(cur@.take(i as int), prev@)));
        }
    }
    proof {
        assert(cur@.take(n as int) =~= cur@);
    }
    r
}

/// The names of the given devices, a nameless device contributing the
/// empty string.
pub open spec fn names_of(s: Seq<UsbDev>) -> Seq<Seq<char>> {
    s.map_values(
        |d: UsbDev|
            match d.description {
                Some(n) => n@,
                None => Seq::<char>::empty(),
            },
    )
}

/// The ids of the given devices.
pub open spec fn ids_of(s: Seq<UsbDev>) -> Seq<Seq<char>> {
    s.map_values(|d: UsbDev| d.id@)
}

/// The context for a batch of newly arrived devices: their names and
/// their ids, comma-joined.
pub fn make_usb_context(new_devs: &Vec<UsbDev>) -> (r: Context)
    ensures
        r.wf(),
        r@ == seq![
            ("device_names"@, join_with(names_of(new_devs@), ","@)),
            ("device_ids"@, join_with(ids_of(new_devs@), ","@)),
        ],
{
    let n = new_devs.len();
    let mut new_dev_names: Vec<String> = Vec::new();
    let mut new_dev_id: Vec<String> = Vec::new();
    let mut i: usize = 0;
    while i < n
        invariant
            n == new_devs@.len(),
            i <= n,
            new_dev_names@.len() == i,
            new_dev_id@.len() == i,
            new_dev_names.deep_view() =~= names_of(new_devs@.take(i as int)),
            new_dev_id.deep_view() =~= ids_of(new_devs@.take(i as int)),
        decreases n - i,
    {
        let ghost pre_names = new_dev_names.deep_view();
        let ghost pre_ids = new_dev_id.deep_view();
        match &new_devs[i].description {
            Some(name) => {
                new_dev_names.push(name.clone());
            },
            None => {
                new_dev_names.push(String::new());
            },
        }
        new_dev_id.push(new_devs[i].id.clone());
        i = i + 1;
        proof {
            let gi = i as int - 1;
            assert(new_dev_names.deep_view().len() == gi + 1);
            assert(new_dev_id.deep_view().len() == gi + 1);
            assert(new_dev_names.deep_view()[gi] == names_of(new_devs@)[gi]);
            assert(new_dev_id.deep_view()[gi] == new_devs@[gi].id@);
            assert forall|j: int| 0 <= j < gi implies new_dev_names.deep_view()[j] == names_of(
                new_devs@.take(gi + 1),
            )[j] && new_dev_id.deep_view()[j] == ids_of(new_devs@.take(gi + 1))[j] by {
                assert(new_dev_names.deep_view()[j] == pre_names[j]);
                assert(new_dev_id.deep_view()[j] == pre_ids[j]);
                assert(pre_names[j] == names_of(new_devs@.take(gi))[j]);
                assert(pre_ids[j] == ids_of(new_devs@.take(gi))[j]);
            }
            assert(new_dev_names.deep_view() =~= names_of(new_devs@.take(i as int)));
            assert(new_dev_id.deep_view() =~= ids_of(new_devs@.take(i as int)));
        }
    }
    proof {
        assert(new_devs@.take(n as int) =~= new_devs@);
    }
    let names = crate::text::join_strings(&new_dev_names, ",");
    let ids = crate::text::join_strings(&new_dev_id, ",");
    let mut context = Context::new();
    context.insert("device_names".to_owned(), names);
    proof {
        reveal_strlit("device_names");
        reveal_strlit("device_ids");
        assert(("device_names"@).len() == 12);
        assert(("device_ids"@).len() == 10);
        assert(!context.has_key("device_ids"@));
    }
    context.insert("device_ids".to_owned(), ids);
    proof {
        assert(context@ =~= seq![
            ("device_names"@, join_with(names_of(new_devs@), ","@)),
            ("device_ids"@, join_with(ids_of(new_devs@), ","@)),
        ]);
    }
    context
}

/// One step of the new-USB-device source: when the enumerated set
/// changed, the new enumeration becomes the snapshot, and the new
/// arrivals (if any) are reported with `{device_names, device_ids}`.
pub fn usb_step(devices: Vec<UsbDev>, tmp_devices: Vec<UsbDev>) -> (r: (
    Vec<UsbDev>,
    Option<Context>,
))
    ensures
        same_dev_set(tmp_devices@, devices@) ==> r.0@ == devices@ && r.1 is None,
        !same_dev_set(tmp_devices@, devices@) ==> {
            &&& r.0@ == tmp_devices@
            &&& dev_views(fresh_devs(tmp_devices@, devices@)).len() == 0 ==> r.1 is None
            &&& dev_views(fresh_devs(tmp_devices@, devices@)).len() > 0 ==> (r.1 matches Some(c)
                && c.wf() && c@ == seq![
                ("device_names"@, join_with(names_of(fresh_devs(tmp_devices@, devices@)), ","@)),
                ("device_ids"@, join_with(ids_of(fresh_devs(tmp_devices@, devices@)), ","@)),
            ])
        },
{
    if dev_set_eq(&tmp_devices, &devices) {
        return (devices, None);
    }
    let new_devices = usb_diff(&tmp_devices, &devices);
    if new_devices.len() == 0 {
        return (tmp_devices, None);
    }
    let ghost fresh = fresh_devs(tmp_devices@, devices@);
    let context = make_usb_context(&new_devices);
    proof {
        assert(names_of(new_devices@) =~= names_of(fresh)) by {
            assert(dev_views(new_devices@) == dev_views(fresh));
            assert(dev_views(new_devices@).len() == new_devices@.len());
            assert(dev_views(fresh).len() == fresh.len());
            assert(new_devices@.len() == fresh.len());
            assert forall|j: int| 0 <= j < fresh.len() implies names_of(new_devices@)[j]
                == names_of(fresh)[j] by {
                assert(dev_views(new_devices@)[j] == dev_views(fresh)[j]);
            }
        }
        assert(ids_of(new_devices@) =~= ids_of(fresh)) by {
            assert(dev_views(new_devices@) == dev_views(fresh));
            assert forall|j: int| 0 <= j < fresh.len() implies ids_of(new_devices@)[j] == ids_of(
                fresh,
            )[j] by {
                assert(dev_views(new_devices@)[j] == dev_views(fresh)[j]);
            }
        }
    }
    (tmp_devices, Some(context))
}

/// One step of the backlight source: emits `{old_backlight,
/// new_backlight}`, formatted as decimal ratio strings, exactly when the
/// ratio changed between two consecutive polls.
pub fn backlight_step(prev: Brightness, cur: Brightness) -> (r: Option<Context>)
    requires
        prev.wf(),
        cur.wf(),
    ensures
        match r {
            None => same_ratio(prev, cur),
            Some(c) => !same_ratio(prev, cur) && c.wf() && c@ == seq![
                ("old_backlight"@, ratio_chars(prev)),
                ("new_backlight"@, ratio_chars(cur)),
            ],
        },
{
    proof {
        assert((prev.level as int) * (cur.max as int) < 18446744073709551616 && (cur.level as int)
            * (prev.max as int) < 18446744073709551616) by (nonlinear_arith)
            requires
                prev.level <= 4294967295,
                cur.max <= 4294967295,
                cur.level <= 4294967295,
                prev.max <= 4294967295,
        ;
    }
    let lhs: u64 = (prev.level as u64) * (cur.max as u64);
    let rhs: u64 = (cur.level as u64) * (prev.max as u64);
    if lhs == rhs {
        return None;
    }
    let old_s = format_ratio(prev);
    let new_s = format_ratio(cur);
    let mut context = Context::new();
    context.insert("old_backlight".to_owned(), old_s);
    proof {
        reveal_strlit("old_backlight");
        reveal_strlit("new_backlight");
        assert(context@.len() == 1 && context@[0].0 == "old_backlight"@);
        assert(("old_backlight"@)[0] == 'o');
        assert(("new_backlight"@)[0] == 'n');
        assert("old_backlight"@ != "new_backlight"@);
        assert(!context.has_key("new_backlight"@));
    }
    context.insert("new_backlight".to_owned(), new_s);
    proof {
        assert(context@ =~= seq![
            ("old_backlight"@, ratio_chars(prev)),
            ("new_backlight"@, ratio_chars(cur)),
        ]);
    }
    Some(context)
}


/// The characters of a bluetooth object path's device suffix, NUL
/// characters dropped and underscores turned into colons: the device
/// address.
pub open spec fn adr_map(s: Seq<char>) -> Seq<char>
    decreases s.len(),
{
    if s.len() == 0 {
        Seq::empty()
    } else {
        let pre = adr_map(s.drop_last());
        if s.last() == '\u{0}' {
            pre
        } else if s.last() == '_' {
            pre.push(':')
        } else {
            pre.push(s.last())
        }
    }
}

/// The device address a platform object path encodes: what follows the
/// first `dev_` marker, cleaned up by [`adr_map`].
pub open spec fn adr_of(s: Seq<char>) -> Seq<char> {
    let i = choose|i: int| first_sub_at(s, "dev_"@, i);
    adr_map(s.subrange(i + 4, s.len() as int))
}

/// Extracts the device address from a platform object path holding a
/// `dev_` marker.
pub fn make_adr(obj_path: &str) -> (r: String)
    requires
        exists|i: int| sub_at(obj_path@, "dev_"@, i),
    ensures
        r@ == adr_of(obj_path@),
{
    proof {
        reveal_strlit("dev_");
    }
    let n = obj_path.unicode_len();
    let start = match find_sub(obj_path, "dev_") {
        Some(i) => i + 4,
        None => {
            proof {
                let w = choose|w: int| sub_at(obj_path@, "dev_"@, w);
                assert(!sub_at(obj_path@, "dev_"@, w));
            }
            0
        },
    };
    proof {
        let w = choose|w: int| first_sub_at(obj_path@, "dev_"@, w);
        crate::text::lemma_first_sub_at_unique(obj_path@, "dev_"@, start - 4, w);
    }
    let mut r = String::new();
    let mut j: usize = start;
    while j < n
        invariant
            n == obj_path@.len(),
            start <= j <= n,
            r@ == adr_map(obj_path@.subrange(start as int, j as int)),
        decreases n - j,
    {
        let c = obj_path.get_char(j);
        if c == '\u{0}' {
        } else if c == '_' {
            r.append(":");
            proof {
                reveal_strlit(":");
            }
        } else {
            let piece = obj_path.substring_char(j, j + 1);
            r.append(piece);
        }
        j = j + 1;
        proof {
            let seg = obj_path@.subrange(start as int, j as int);
            assert(seg.drop_last() =~= obj_path@.subrange(start as int, j as int - 1));
            assert(seg.last() == obj_path@[j as int - 1]);
            assert(r@ =~= adr_map(seg));
        }
    }
    proof {
        assert(obj_path@.subrange(start as int, n as int) == obj_path@.subrange(
            start as int,
            obj_path@.len() as int,
        ));
    }
    r
}

/// A platform bluetooth event the source reacts to, carrying the
/// adapter's object path for the device.
pub enum BltEvent {
    DeviceConnected(String),
    DeviceDisconnected(String),
}

/// The object path carries a `dev_` marker, as the platform writes it.
pub open spec fn id_has_marker(ev: BltEvent) -> bool {
    match ev {
        BltEvent::DeviceConnected(id) => exists|i: int| sub_at(id@, "dev_"@, i),
        BltEvent::DeviceDisconnected(id) => exists|i: int| sub_at(id@, "dev_"@, i),
    }
}

/// True at the first position of `x` in a list of strings.
pub open spec fn str_first_at(s: Seq<Seq<char>>, x: Seq<char>, i: int) -> bool {
    0 <= i < s.len() && s[i] == x && (forall|j: int| 0 <= j < i ==> s[j] != x)
}

/// The list with the first occurrence of `x` removed, if one exists.
pub open spec fn remove_first_str(s: Seq<Seq<char>>, x: Seq<char>) -> Seq<Seq<char>> {
    if exists|i: int| str_first_at(s, x, i) {
        let i = choose|i: int| str_first_at(s, x, i);
        s.subrange(0, i) + s.subrange(i + 1, s.len() as int)
    } else {
        s
    }
}

pub proof fn lemma_str_first_at_unique(s: Seq<Seq<char>>, x: Seq<char>, i: int, j: int)
    requires
        str_first_at(s, x, i),
        str_first_at(s, x, j),
    ensures
        i == j,
{
    if i < j {
        assert(s[i] != x);
    } else if j < i {
        assert(s[j] != x);
    }
}

/// One step of the bluetooth source: folds a platform connect or
/// disconnect event into the tracked set of connected addresses. A
/// connect for an address already tracked is a duplicate and emits
/// nothing; otherwise the address is tracked and `{event, device_adr}`
/// is emitted. A disconnect always emits and stops tracking the address.
pub fn blt_step(connected: &mut Vec<String>, event: BltEvent) -> (r: Option<Context>)
    requires
        id_has_marker(event),
    ensures
        match event {
            BltEvent::DeviceConnected(id) => {
                if old(connected).deep_view().contains(adr_of(id@)) {
                    r is None && final(connected)@ == old(connected)@
                } else {
                    final(connected).deep_view() == old(connected).deep_view().push(adr_of(id@))
                        && (r matches Some(c) && c.wf() && c@ == seq![
                        ("event"@, "connected"@),
                        ("device_adr"@, adr_of(id@)),
                    ])
                }
            },
            BltEvent::DeviceDisconnected(id) => {
                final(connected).deep_view() == remove_first_str(
                    old(connected).deep_view(),
                    adr_of(id@),
                ) && (r matches Some(c) && c.wf() && c@ == seq![
                    ("event"@, "disconnected"@),
                    ("device_adr"@, adr_of(id@)),
                ])
            },
        },
{
    match event {
        BltEvent::DeviceConnected(id) => {
            let adr = make_adr(id.as_str());
            if crate::text::list_contains(connected, adr.as_str()) {
                return None;
            }
            let ghost pre = connected.deep_view();
            let tracked_adr = adr.clone();
            connected.push(tracked_adr);
            proof {
                assert forall|j: int| 0 <= j < connected.deep_view().len() implies connected
                    .deep_view()[j] == pre.push(adr_of(id@))[j] by {
                    if j < pre.len() {
                        assert(connected@[j] == old(connected)@[j]);
                    }
                }
                assert(connected.deep_view() =~= pre.push(adr_of(id@)));
            }
            let mut context = Context::new();
            context.insert("event".to_owned(), "connected".to_owned());
            proof {
                reveal_strlit("event");
                reveal_strlit("device_adr");
                assert(("event"@).len() == 5);
                assert(("device_adr"@).len() == 10);
                assert(!context.has_key("device_adr"@));
            }
            context.insert("device_adr".to_owned(), adr);
            proof {
                assert(context@ =~= seq![("event"@, "connected"@), ("device_adr"@, adr_of(id@))]);
            }
            Some(context)
        },
        BltEvent::DeviceDisconnected(id) => {
            let adr = make_adr(id.as_str());
            let ghost pre = connected.deep_view();
            let n = connected.len();
            let mut i: usize = 0;
            let mut found = false;
            while i < n && !found
                invariant
                    n == connected@.len(),
                    i <= n,
                    !found ==> forall|j: int| 0 <= j < i ==> connected.deep_view()[j] != adr@,
                    found ==> i < n && str_first_at(connected.deep_view(), adr@, i as int),
                decreases n - i + if found { 0int } else { 1int },
            {
                if str_eq(connected[i].as_str(), adr.as_str()) {
                    found = true;
                } else {
                    i = i + 1;
                }
            }
            if found {
                let ghost gi = i as int;
                connected.remove(i);
                proof {
                    let w = choose|w: int| str_first_at(pre, adr@, w);
                    lemma_str_first_at_unique(pre, adr@, gi, w);
                    assert(connected.deep_view() =~= pre.subrange(0, gi) + pre.subrange(
                        gi + 1,
                        pre.len() as int,
                    ));
                    assert(connected.deep_view() == remove_first_str(pre, adr@));
                }
            } else {
                proof {
                    if exists|w: int| str_first_at(pre, adr@, w) {
                        let w = choose|w: int| str_first_at(pre, adr@, w);
                        assert(pre[w] != adr@);
                    }
                    assert(connected.deep_view() == remove_first_str(pre, adr@));
                }
            }
            let mut context = Context::new();
            context.insert("event".to_owned(), "disconnected".to_owned());
            proof {
                reveal_strlit("event");
                reveal_strlit("device_adr");
                assert(("event"@).len() == 5);
                assert(("device_adr"@).len() == 10);
                assert(!context.has_key("device_adr"@));
            }
            context.insert("device_adr".to_owned(), adr);
            proof {
                assert(context@ =~= seq![
                    ("event"@, "disconnected"@),
                    ("device_adr"@, adr_of(id@)),
                ]);
            }
            Some(context)
        },
    }
}

} // verus!

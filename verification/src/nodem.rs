//! The framebuffer's configuration, and what the task that draws into it
//! decides.
use crate::driver::{
    DeviceMapping, DriverKind, MAX_DEVICES, device_of, device_text, lemma_device_roundtrip,
    lemma_device_text_chars, lemma_device_text_fits,
};
use crate::text::{
    decimal, fields, lacks, lemma_ascii_concat, lemma_concat_chars, lemma_decimal_ascii,
    lemma_decimal_chars, lemma_decimal_digits, lemma_decimal_len, lemma_number_of_decimal,
    lemma_pieces_join, lemma_pieces_lack, lemma_pieces_one, lemma_pieces_snoc, lemma_trimmed_plain,
    no_space, number, parse_number, pieces, push_number, split, split_trimmed, texts,
};
use vstd::prelude::*;
use vstd::utf8::*;

verus! {

broadcast use vstd::string::group_string_axioms;

pub const NVS_NAMESPACE: &'static str = "nodem";

pub const NVS_KEY_LAST_PAGE: &'static str = "last_page";

pub const NVS_KEY_CONFIG: &'static str = "nodem";

/// How long a stored configuration may be; every configuration's text fits.
pub const NVS_VALUE_MAX_LEN: usize = 127;

/// Upper bound on either side of the framebuffer.
pub const MAX_DIMENSION: u16 = 1024;

/// The shape of the framebuffer, and which drivers show which part of it. Only
/// one bit per pixel is supported.
#[derive(Clone, Copy, Debug)]
pub struct NodemConfig {
    pub width: u16,
    pub height: u16,
    pub bits_per_pixel: u8,
    pub devices: [Option<DeviceMapping>; MAX_DEVICES],
}

/// What a configuration says.
pub struct NodemModel {
    pub width: nat,
    pub height: nat,
    pub bits_per_pixel: nat,
    pub devices: Seq<DeviceMapping>,
}

impl NodemModel {
    pub open spec fn wf(self) -> bool {
        &&& 1 <= self.width <= MAX_DIMENSION
        &&& 1 <= self.height <= MAX_DIMENSION
        &&& self.bits_per_pixel == 1
        &&& self.devices.len() <= MAX_DEVICES
        &&& forall|i: int| 0 <= i < self.devices.len() ==> (#[trigger] self.devices[i]).wf()
    }

    /// How many bytes the framebuffer takes: its bits, rounded up.
    pub open spec fn buffer_len(self) -> nat {
        (self.width * self.height * self.bits_per_pixel + 7) / 8
    }
}

/// Whether the framebuffers of two configurations have the same shape.
pub open spec fn same_shape(a: NodemModel, b: NodemModel) -> bool {
    a.width == b.width && a.height == b.height && a.bits_per_pixel == b.bits_per_pixel
}

/// The mappings in front of the first empty place.
pub open spec fn listed(places: Seq<Option<DeviceMapping>>) -> Seq<DeviceMapping>
    decreases places.len(),
{
    if places.len() == 0 {
        seq![]
    } else {
        match places[0] {
            Some(d) => seq![d] + listed(places.skip(1)),
            None => seq![],
        }
    }
}

/// The first mapping of a driver.
pub open spec fn mapping_of(devices: Seq<DeviceMapping>, driver: DriverKind) -> Option<
    DeviceMapping,
>
    decreases devices.len(),
{
    if devices.len() == 0 {
        None
    } else if devices[0].driver == driver {
        Some(devices[0])
    } else {
        mapping_of(devices.skip(1), driver)
    }
}

impl View for NodemConfig {
    type V = NodemModel;

    open spec fn view(&self) -> NodemModel {
        NodemModel {
            width: self.width as nat,
            height: self.height as nat,
            bits_per_pixel: self.bits_per_pixel as nat,
            devices: listed(self.devices@),
        }
    }
}

/// The configuration that `NodemConfig::default` makes.
pub open spec fn default_nodem() -> NodemModel {
    NodemModel { width: 128, height: 64, bits_per_pixel: 1, devices: seq![] }
}

impl Default for NodemConfig {
    fn default() -> (r: Self)
        ensures
            r@ == default_nodem(),
            r@.wf(),
    {
        NodemConfig { width: 128, height: 64, bits_per_pixel: 1, devices: [None, None, None, None] }
    }
}

impl PartialEq for NodemConfig {
    fn eq(&self, other: &Self) -> (r: bool) {
        if !self.same_geometry(other) {
            return false;
        }
        let ghost a = listed(self.devices@);
        let ghost b = listed(other.devices@);
        proof {
            lemma_listed_at(self.devices@);
            lemma_listed_at(other.devices@);
        }
        for i in 0..MAX_DEVICES
            invariant
                a == listed(self.devices@),
                b == listed(other.devices@),
                self.devices@.len() == MAX_DEVICES,
                other.devices@.len() == MAX_DEVICES,
                a.len() <= MAX_DEVICES,
                b.len() <= MAX_DEVICES,
                forall|j: int| 0 <= j < a.len() ==> self.devices@[j] == Some(#[trigger] a[j]),
                forall|j: int| 0 <= j < b.len() ==> other.devices@[j] == Some(#[trigger] b[j]),
                a.len() < MAX_DEVICES ==> self.devices@[a.len() as int] is None,
                b.len() < MAX_DEVICES ==> other.devices@[b.len() as int] is None,
                self@.width == other@.width,
                self@.height == other@.height,
                self@.bits_per_pixel == other@.bits_per_pixel,
                i <= a.len(),
                i <= b.len(),
                forall|j: int| 0 <= j < i ==> a[j] == b[j],
        {
            proof {
                assert(i < a.len() ==> self.devices@[i as int] == Some(a[i as int]));
                assert(i < b.len() ==> other.devices@[i as int] == Some(b[i as int]));
            }
            match (self.devices[i], other.devices[i]) {
                (Some(d), Some(e)) => {
                    if d != e {
                        return false;
                    }
                },
                (None, None) => {
                    proof {
                        assert(a =~= b);
                    }
                    return true;
                },
                _ => {
                    return false;
                },
            }
        }
        proof {
            assert(a =~= b);
        }
        true
    }
}

impl Eq for NodemConfig {

}

impl vstd::std_specs::cmp::PartialEqSpecImpl for NodemConfig {
    open spec fn obeys_eq_spec() -> bool {
        true
    }

    open spec fn eq_spec(&self, other: &Self) -> bool {
        self@ == other@
    }
}

// ---------------------------------------------------------------------------
// Reading and writing
// ---------------------------------------------------------------------------

/// The width, height and bits per pixel that a text names.
pub open spec fn geometry_of(s: Seq<char>) -> Option<(nat, nat, nat)> {
    let f = fields(s, ':');
    if f.len() != 3 {
        None
    } else {
        match (number(f[0]), number(f[1]), number(f[2])) {
            (Some(width), Some(height), Some(bits)) => if 1 <= width <= MAX_DIMENSION && 1 <= height
                <= MAX_DIMENSION && bits == 1 {
                Some((width, height, bits))
            } else {
                None
            },
            _ => None,
        }
    }
}

/// The mappings that texts name, if each of them names one.
pub open spec fn devices_of(entries: Seq<Seq<char>>) -> Option<Seq<DeviceMapping>>
    decreases entries.len(),
{
    if entries.len() == 0 {
        Some(seq![])
    } else {
        match (devices_of(entries.drop_last()), device_of(entries.last())) {
            (Some(ds), Some(d)) => Some(ds.push(d)),
            _ => None,
        }
    }
}

/// The configuration that a text of
/// `<width>:<height>:<bits_per_pixel>[,<device>...]` names.
pub open spec fn nodem_of(s: Seq<char>) -> Option<NodemModel> {
    let p = pieces(s, ',');
    match (geometry_of(p[0]), devices_of(p.skip(1))) {
        (Some((width, height, bits_per_pixel)), Some(devices)) => if devices.len() <= MAX_DEVICES {
            Some(NodemModel { width, height, bits_per_pixel, devices })
        } else {
            None
        },
        _ => None,
    }
}

/// The text of the shape alone.
pub open spec fn geometry_text(m: NodemModel) -> Seq<char> {
    decimal(m.width) + seq![':'] + decimal(m.height) + seq![':'] + decimal(m.bits_per_pixel)
}

/// The text of mappings, each behind a comma.
pub open spec fn devices_text(devices: Seq<DeviceMapping>) -> Seq<char>
    decreases devices.len(),
{
    if devices.len() == 0 {
        seq![]
    } else {
        devices_text(devices.drop_last()) + seq![','] + device_text(devices.last())
    }
}

/// The text of a configuration.
pub open spec fn nodem_text(m: NodemModel) -> Seq<char> {
    geometry_text(m) + devices_text(m.devices)
}

/// What `geometry_of` says, computed.
fn parse_geometry(s: &str) -> (r: Option<(u16, u16, u8)>)
    ensures
        match r {
            Some((w, h, b)) => geometry_of(s@) == Some((w as nat, h as nat, b as nat)),
            None => geometry_of(s@) is None,
        },
{
    let f: Vec<&str> = split_trimmed(s, ':');
    if f.len() != 3 {
        return None;
    }
    match (parse_number(f[0], 65535), parse_number(f[1], 65535), parse_number(f[2], 255)) {
        (Some(width), Some(height), Some(bits)) => {
            if 1 <= width && width <= MAX_DIMENSION as u64 && 1 <= height && height
                <= MAX_DIMENSION as u64 && bits == 1 {
                Some((width as u16, height as u16, bits as u8))
            } else {
                None
            }
        },
        _ => None,
    }
}

impl NodemConfig {
    /// `None` for anything but a shape of three fields within the bounds,
    /// with at most `MAX_DEVICES` mappings behind it.
    pub fn parse(s: &str) -> (r: Option<Self>)
        ensures
            r is Some <==> nodem_of(s@) is Some,
            r matches Some(c) ==> nodem_of(s@) == Some(c@) && c@.wf(),
    {
        let p: Vec<&str> = split(s, ',');
        let (width, height, bits_per_pixel): (u16, u16, u8) = match parse_geometry(p[0]) {
            Some(g) => g,
            None => {
                return None;
            },
        };
        let ghost entries = pieces(s@, ',').skip(1);
        let mut devices: [Option<DeviceMapping>; MAX_DEVICES] = [None, None, None, None];
        let ghost mut ds: Seq<DeviceMapping> = seq![];
        proof {
            assert(entries.take(0) =~= seq![]);
        }
        for i in 1..p.len()
            invariant
                texts(p@) == pieces(s@, ','),
                entries == pieces(s@, ',').skip(1),
                i <= MAX_DEVICES + 1,
                devices@.len() == MAX_DEVICES,
                devices_of(entries.take(i - 1)) == Some(ds),
                ds.len() == i - 1,
                forall|j: int| 0 <= j < ds.len() ==> devices@[j] == Some(#[trigger] ds[j]),
                forall|j: int| ds.len() <= j < MAX_DEVICES ==> devices@[j] is None,
                forall|j: int| 0 <= j < ds.len() ==> (#[trigger] ds[j]).wf(),
        {
            proof {
                assert(entries.take(i as int).drop_last() =~= entries.take(i - 1));
                assert(entries.take(i as int).last() == p@[i as int]@);
            }
            let d: DeviceMapping = match DeviceMapping::parse(p[i]) {
                Some(d) => d,
                None => {
                    proof {
                        lemma_devices_prefix(entries, i as int);
                    }
                    return None;
                },
            };
            if i > MAX_DEVICES {
                proof {
                    lemma_devices_prefix(entries, i as int);
                    lemma_devices_len(entries);
                }
                return None;
            }
            devices[i - 1] = Some(d);
            proof {
                ds = ds.push(d);
            }
        }
        proof {
            assert(entries.take(p@.len() - 1) =~= entries);
            lemma_listed(devices@, ds);
        }
        Some(NodemConfig { width, height, bits_per_pixel, devices })
    }

    /// The inverse of `parse`.
    pub fn to_nvs_string(&self) -> (r: String)
        ensures
            r@ == nodem_text(self@),
    {
        let mut out: String = String::new();
        proof {
            reveal_strlit(":");
            reveal_strlit(",");
            assert(":"@ =~= seq![':']);
            assert(","@ =~= seq![',']);
        }
        push_number(&mut out, self.width as u64);
        out.append(":");
        push_number(&mut out, self.height as u64);
        out.append(":");
        push_number(&mut out, self.bits_per_pixel as u64);
        let ghost all = listed(self.devices@);
        proof {
            assert(out@ =~= geometry_text(self@));
            assert(all.take(0) =~= seq![]);
            assert(out@ =~= geometry_text(self@) + devices_text(all.take(0)));
            lemma_listed_at(self.devices@);
        }
        let mut i: usize = 0;
        while i < MAX_DEVICES
            invariant
                all == listed(self.devices@),
                self.devices@.len() == MAX_DEVICES,
                all.len() <= MAX_DEVICES,
                ","@ == seq![','],
                forall|j: int|
                    0 <= j < all.len() ==> self.devices@[j] == Some(#[trigger] all[j]),
                all.len() < MAX_DEVICES ==> self.devices@[all.len() as int] is None,
                i <= all.len(),
                out@ == geometry_text(self@) + devices_text(all.take(i as int)),
            ensures
                i == all.len(),
            decreases MAX_DEVICES - i,
        {
            match self.devices[i] {
                Some(d) => {
                    out.append(",");
                    out.append(d.to_nvs_string().as_str());
                    proof {
                        assert(all.take(i + 1).drop_last() =~= all.take(i as int));
                        assert(out@ =~= geometry_text(self@) + devices_text(all.take(i + 1)));
                    }
                },
                None => {
                    assert(i < all.len() ==> self.devices@[i as int] == Some(all[i as int]));
                    break;
                },
            }
            i = i + 1;
        }
        proof {
            assert(all.take(all.len() as int) =~= all);
        }
        out
    }

    /// The size of the framebuffer in bytes. Pixels follow each other without
    /// padding between rows.
    pub fn buffer_len(&self) -> (r: usize)
        requires
            self@.wf(),
        ensures
            r == self@.buffer_len(),
    {
        proof {
            assert(self.width * self.height <= 1024 * 1024) by (nonlinear_arith)
                requires
                    self.width <= 1024,
                    self.height <= 1024,
            ;
            assert(self.width * self.height * self.bits_per_pixel <= 1024 * 1024)
                by (nonlinear_arith)
                requires
                    self.width * self.height <= 1024 * 1024,
                    self.bits_per_pixel == 1,
            ;
            vstd::arithmetic::mul::lemma_mul_nonnegative(self.width as int, self.height as int);
        }
        (self.width as usize * self.height as usize * self.bits_per_pixel as usize + 7) / 8
    }

    /// The first mapping of `driver`.
    pub fn mapping(&self, driver: DriverKind) -> (r: Option<DeviceMapping>)
        ensures
            r == mapping_of(self@.devices, driver),
    {
        let ghost all = listed(self.devices@);
        proof {
            lemma_listed_at(self.devices@);
            assert(all.skip(0) =~= all);
        }
        for i in 0..MAX_DEVICES
            invariant
                all == listed(self.devices@),
                self.devices@.len() == MAX_DEVICES,
                all.len() <= MAX_DEVICES,
                forall|j: int|
                    0 <= j < all.len() ==> self.devices@[j] == Some(#[trigger] all[j]),
                all.len() < MAX_DEVICES ==> self.devices@[all.len() as int] is None,
                i <= all.len(),
                mapping_of(all.skip(i as int), driver) == mapping_of(all, driver),
        {
            match self.devices[i] {
                Some(d) => {
                    assert(i < all.len());
                    assert(all.skip(i as int)[0] == all[i as int]);
                    if d.driver == driver {
                        return Some(d);
                    }
                    proof {
                        assert(all.skip(i as int).skip(1) =~= all.skip(i + 1));
                    }
                },
                None => {
                    return None;
                },
            }
        }
        None
    }

    /// Whether the framebuffers of two configurations have the same shape.
    pub fn same_geometry(&self, other: &NodemConfig) -> (r: bool)
        ensures
            r == same_shape(self@, other@),
    {
        self.width == other.width && self.height == other.height && self.bits_per_pixel
            == other.bits_per_pixel
    }
}

/// What `listed` is: as many mappings as stand in front of the first empty
/// place.
pub proof fn lemma_listed_at(places: Seq<Option<DeviceMapping>>)
    ensures
        listed(places).len() <= places.len(),
        forall|j: int|
            0 <= j < listed(places).len() ==> places[j] == Some(#[trigger] listed(places)[j]),
        listed(places).len() < places.len() ==> places[listed(places).len() as int] is None,
    decreases places.len(),
{
    if places.len() > 0 && places[0] is Some {
        lemma_listed_at(places.skip(1));
        let rest = listed(places.skip(1));
        assert forall|j: int| 0 <= j < listed(places).len() implies places[j] == Some(
            #[trigger] listed(places)[j],
        ) by {
            if j > 0 {
                assert(listed(places)[j] == rest[j - 1]);
                assert(places.skip(1)[j - 1] == places[j]);
            }
        }
        if rest.len() < places.skip(1).len() {
            assert(places.skip(1)[rest.len() as int] == places[rest.len() as int + 1]);
        }
    }
}

/// `listed`, from what it is.
proof fn lemma_listed(places: Seq<Option<DeviceMapping>>, ds: Seq<DeviceMapping>)
    requires
        ds.len() <= places.len(),
        forall|j: int| 0 <= j < ds.len() ==> places[j] == Some(#[trigger] ds[j]),
        ds.len() < places.len() ==> places[ds.len() as int] is None,
    ensures
        listed(places) == ds,
    decreases places.len(),
{
    if ds.len() > 0 {
        assert(places[0] == Some(ds[0]));
        assert forall|j: int| 0 <= j < ds.skip(1).len() implies places.skip(1)[j] == Some(
            #[trigger] ds.skip(1)[j],
        ) by {
            assert(ds.skip(1)[j] == ds[j + 1]);
            assert(places.skip(1)[j] == places[j + 1]);
        }
        lemma_listed(places.skip(1), ds.skip(1));
        assert(seq![ds[0]] + ds.skip(1) =~= ds);
    }
}

/// Where all texts name mappings, the first ones do.
proof fn lemma_devices_prefix(entries: Seq<Seq<char>>, k: int)
    requires
        0 <= k <= entries.len(),
    ensures
        devices_of(entries) is Some ==> devices_of(entries.take(k)) is Some,
    decreases entries.len(),
{
    if k == entries.len() {
        assert(entries.take(k) =~= entries);
    } else if entries.len() > 0 {
        assert(entries.drop_last().take(k) =~= entries.take(k));
        lemma_devices_prefix(entries.drop_last(), k);
    }
}

proof fn lemma_devices_len(entries: Seq<Seq<char>>)
    ensures
        devices_of(entries) matches Some(ds) ==> {
            &&& ds.len() == entries.len()
            &&& forall|i: int| 0 <= i < ds.len() ==> (#[trigger] ds[i]).wf()
        },
    decreases entries.len(),
{
    if entries.len() > 0 {
        lemma_devices_len(entries.drop_last());
    }
}

/// What to do with the stored configuration at startup.
pub struct NodemStartup {
    pub config: NodemConfig,
    /// What to store in place of a value that is missing or cannot be read.
    pub store: Option<String>,
}

/// Takes the stored configuration, if it is one. Otherwise the default is to
/// be stored, so that what is shown as stored is what is in use.
pub fn read_nodem_config(raw: Option<&str>) -> (r: NodemStartup)
    ensures
        r.config@.wf(),
        match raw {
            Some(text) if nodem_of(text@) is Some => {
                &&& nodem_of(text@) == Some(r.config@)
                &&& r.store is None
            },
            _ => {
                &&& r.config@ == default_nodem()
                &&& r.store matches Some(s) && s@ == nodem_text(default_nodem())
            },
        },
{
    if let Some(text) = raw {
        if let Some(config) = NodemConfig::parse(text) {
            return NodemStartup { config, store: None };
        }
    }
    let config: NodemConfig = NodemConfig::default();
    let store: String = config.to_nvs_string();
    NodemStartup { config, store: Some(store) }
}

// ---------------------------------------------------------------------------
// Laws
// ---------------------------------------------------------------------------

proof fn lemma_geometry_text_fields(m: NodemModel)
    ensures
        lacks(geometry_text(m), ','),
        fields(geometry_text(m), ':') == seq![
            decimal(m.width),
            decimal(m.height),
            decimal(m.bits_per_pixel),
        ],
{
    let w = decimal(m.width);
    let h = decimal(m.height);
    let b = decimal(m.bits_per_pixel);
    let c = seq![':'];
    lemma_decimal_chars(m.width);
    lemma_decimal_chars(m.height);
    lemma_decimal_chars(m.bits_per_pixel);
    lemma_concat_chars(w, c, ',');
    lemma_concat_chars(w + c, h, ',');
    lemma_concat_chars(w + c + h, c, ',');
    lemma_concat_chars(w + c + h + c, b, ',');
    assert(geometry_text(m) =~= w + c + (h + c + b));
    lemma_pieces_join(w, ':', h + c + b);
    lemma_pieces_join(h, ':', b);
    lemma_pieces_one(b, ':');
    lemma_trimmed_plain(w);
    lemma_trimmed_plain(h);
    lemma_trimmed_plain(b);
    assert(pieces(geometry_text(m), ':') =~= seq![w, h, b]);
    assert(fields(geometry_text(m), ':') =~= seq![w, h, b]);
}

/// The entries of a text that lists mappings behind a first entry.
proof fn lemma_devices_entries(head: Seq<char>, devices: Seq<DeviceMapping>)
    requires
        lacks(head, ','),
        forall|i: int| 0 <= i < devices.len() ==> (#[trigger] devices[i]).wf(),
    ensures
        ({
            let p = pieces(head + devices_text(devices), ',');
            &&& p.len() == devices.len() + 1
            &&& p[0] == head
            &&& devices_of(p.skip(1)) == Some(devices)
        }),
    decreases devices.len(),
{
    let s = head + devices_text(devices);
    let p = pieces(s, ',');
    if devices.len() == 0 {
        assert(s =~= head);
        lemma_pieces_one(head, ',');
        assert(p.skip(1) =~= seq![]);
        assert(devices =~= seq![]);
    } else {
        let rest = devices.drop_last();
        let t = head + devices_text(rest);
        assert forall|i: int| 0 <= i < rest.len() implies (#[trigger] rest[i]).wf() by {
            assert(rest[i] == devices[i]);
        }
        lemma_devices_entries(head, rest);
        lemma_device_text_chars(devices.last());
        lemma_device_roundtrip(devices.last());
        assert(s =~= t + seq![','] + device_text(devices.last()));
        lemma_pieces_snoc(t, ',', device_text(devices.last()));
        assert(p.skip(1).drop_last() =~= pieces(t, ',').skip(1));
        assert(rest.push(devices.last()) =~= devices);
    }
}

/// A configuration reads back from its text.
pub proof fn lemma_nodem_roundtrip(m: NodemModel)
    requires
        m.wf(),
    ensures
        nodem_of(nodem_text(m)) == Some(m),
{
    lemma_geometry_text_fields(m);
    lemma_devices_entries(geometry_text(m), m.devices);
    lemma_number_of_decimal(m.width);
    lemma_number_of_decimal(m.height);
    lemma_number_of_decimal(m.bits_per_pixel);
}

/// Whatever is read is within the bounds.
pub proof fn lemma_nodem_of_wf(s: Seq<char>)
    ensures
        nodem_of(s) matches Some(m) ==> m.wf(),
{
    lemma_devices_len(pieces(s, ',').skip(1));
}

/// The text of what was read reads back as the same configuration.
pub proof fn lemma_nodem_canonical(s: Seq<char>)
    requires
        nodem_of(s) is Some,
    ensures
        nodem_of(nodem_text(nodem_of(s)->0)) == nodem_of(s),
{
    lemma_nodem_of_wf(s);
    lemma_nodem_roundtrip(nodem_of(s)->0);
}

/// What a start without a readable configuration stores is what the next start
/// reads.
pub proof fn lemma_startup_settles()
    ensures
        nodem_of(nodem_text(default_nodem())) == Some(default_nodem()),
{
    lemma_nodem_roundtrip(default_nodem());
}

proof fn lemma_devices_text_chars(devices: Seq<DeviceMapping>)
    ensures
        no_space(devices_text(devices)),
    decreases devices.len(),
{
    if devices.len() > 0 {
        let rest = devices_text(devices.drop_last());
        lemma_devices_text_chars(devices.drop_last());
        lemma_device_text_chars(devices.last());
        lemma_concat_chars(rest, seq![','], ':');
        lemma_concat_chars(rest + seq![','], device_text(devices.last()), ':');
    }
}

/// A configuration's text holds no white space.
pub proof fn lemma_nodem_text_chars(m: NodemModel)
    ensures
        no_space(nodem_text(m)),
        nodem_text(m).len() > 0,
{
    let w = decimal(m.width);
    let h = decimal(m.height);
    let b = decimal(m.bits_per_pixel);
    let c = seq![':'];
    lemma_decimal_chars(m.width);
    lemma_decimal_chars(m.height);
    lemma_decimal_chars(m.bits_per_pixel);
    lemma_concat_chars(w, c, ',');
    lemma_concat_chars(w + c, h, ',');
    lemma_concat_chars(w + c + h, c, ',');
    lemma_concat_chars(w + c + h + c, b, ',');
    lemma_devices_text_chars(m.devices);
    lemma_concat_chars(geometry_text(m), devices_text(m.devices), ',');
}

proof fn lemma_devices_text_fits(devices: Seq<DeviceMapping>)
    ensures
        is_ascii_chars(devices_text(devices)),
        devices_text(devices).len() <= 27 * devices.len(),
    decreases devices.len(),
{
    if devices.len() > 0 {
        lemma_devices_text_fits(devices.drop_last());
        lemma_device_text_fits(devices.last());
        lemma_ascii_concat(devices_text(devices.drop_last()), seq![',']);
        lemma_ascii_concat(
            devices_text(devices.drop_last()) + seq![','],
            device_text(devices.last()),
        );
    }
}

/// Every configuration's text fits where it is stored.
pub proof fn lemma_nodem_text_fits(m: NodemModel)
    requires
        m.wf(),
    ensures
        1 <= encode_utf8(nodem_text(m)).len() <= NVS_VALUE_MAX_LEN,
{
    let w = decimal(m.width);
    let h = decimal(m.height);
    let b = decimal(m.bits_per_pixel);
    let c = seq![':'];
    lemma_decimal_len(m.width);
    lemma_decimal_len(m.height);
    lemma_decimal_len(m.bits_per_pixel);
    lemma_decimal_ascii(m.width);
    lemma_decimal_ascii(m.height);
    lemma_decimal_ascii(m.bits_per_pixel);
    lemma_decimal_digits(m.width);
    lemma_ascii_concat(w, c);
    lemma_ascii_concat(w + c, h);
    lemma_ascii_concat(w + c + h, c);
    lemma_ascii_concat(w + c + h + c, b);
    lemma_devices_text_fits(m.devices);
    lemma_ascii_concat(geometry_text(m), devices_text(m.devices));
    is_ascii_chars_encode_utf8(nodem_text(m));
}

/// The framebuffer has a bit for each pixel, in as few bytes as hold them.
pub proof fn lemma_buffer_holds_pixels(m: NodemModel)
    requires
        m.wf(),
    ensures
        m.width * m.height <= 8 * m.buffer_len() < m.width * m.height + 8,
{
    let area = m.width * m.height;
    assert(area * 1 == area);
}

/// The mapping of a driver is the first of its own in the list.
pub proof fn lemma_mapping_is_first(devices: Seq<DeviceMapping>, driver: DriverKind, k: int)
    requires
        0 <= k < devices.len(),
        devices[k].driver == driver,
        forall|i: int| 0 <= i < k ==> (#[trigger] devices[i]).driver != driver,
    ensures
        mapping_of(devices, driver) == Some(devices[k]),
    decreases devices.len(),
{
    if k > 0 {
        assert(devices[0].driver != driver);
        let rest = devices.skip(1);
        assert forall|i: int| 0 <= i < k - 1 implies (#[trigger] rest[i]).driver != driver by {
            assert(rest[i] == devices[i + 1]);
        }
        lemma_mapping_is_first(rest, driver, k - 1);
    }
}

/// A driver that the list does not name has none.
pub proof fn lemma_mapping_absent(devices: Seq<DeviceMapping>, driver: DriverKind)
    requires
        forall|i: int| 0 <= i < devices.len() ==> (#[trigger] devices[i]).driver != driver,
    ensures
        mapping_of(devices, driver) is None,
    decreases devices.len(),
{
    if devices.len() > 0 {
        assert(devices[0].driver != driver);
        let rest = devices.skip(1);
        assert forall|i: int| 0 <= i < rest.len() implies (#[trigger] rest[i]).driver != driver by {
            assert(rest[i] == devices[i + 1]);
        }
        lemma_mapping_absent(rest, driver);
    }
}

/// What the three numbers of a shape are for, and which are accepted. They are
/// given without white space and separators.
pub proof fn lemma_shape_parts(width: Seq<char>, height: Seq<char>, bits: Seq<char>)
    requires
        no_space(width) && lacks(width, ',') && lacks(width, ':'),
        no_space(height) && lacks(height, ',') && lacks(height, ':'),
        no_space(bits) && lacks(bits, ',') && lacks(bits, ':'),
    ensures
        ({
            let s = width + seq![':'] + height + seq![':'] + bits;
            &&& nodem_of(s) is Some <==> {
                &&& number(width) matches Some(n) && 1 <= n <= 1024
                &&& number(height) matches Some(n) && 1 <= n <= 1024
                &&& number(bits) == Some(1nat)
            }
            &&& nodem_of(s) matches Some(m) ==> {
                &&& number(width) == Some(m.width)
                &&& number(height) == Some(m.height)
                &&& m.bits_per_pixel == 1
                &&& m.devices.len() == 0
            }
        }),
{
    let c = seq![':'];
    let s = width + c + height + c + bits;
    assert(s =~= width + c + (height + c + bits));
    lemma_pieces_join(width, ':', height + c + bits);
    lemma_pieces_join(height, ':', bits);
    lemma_pieces_one(bits, ':');
    lemma_trimmed_plain(width);
    lemma_trimmed_plain(height);
    lemma_trimmed_plain(bits);
    assert(fields(s, ':') =~= seq![width, height, bits]);
    assert(lacks(s, ',')) by {
        assert forall|i: int| 0 <= i < s.len() implies s[i] != ',' by {
            if i < width.len() {
                assert(s[i] == width[i]);
            } else if width.len() < i < width.len() + 1 + height.len() {
                assert(s[i] == height[i - width.len() - 1]);
            } else if i > width.len() + 1 + height.len() {
                assert(s[i] == bits[i - width.len() - height.len() - 2]);
            } else {
                assert(s[i] == ':');
            }
        }
    }
    lemma_pieces_one(s, ',');
    assert(pieces(s, ',').skip(1) =~= seq![]);
}

/// A device behind a shape, and behind those before it, is one more mapping, up
/// to four of them.
pub proof fn lemma_device_appended(s: Seq<char>, device: Seq<char>)
    requires
        lacks(device, ','),
    ensures
        nodem_of(s + seq![','] + device) == match (nodem_of(s), device_of(device)) {
            (Some(m), Some(d)) if m.devices.len() < 4 => Some(
                NodemModel { devices: m.devices.push(d), ..m },
            ),
            _ => None,
        },
{
    let t = s + seq![','] + device;
    let p = pieces(s, ',');
    lemma_pieces_snoc(s, ',', device);
    let q = pieces(t, ',');
    assert(q =~= p.push(device));
    lemma_pieces_lack(s, ',');
    assert(q.skip(1) =~= p.skip(1).push(device));
    assert(q.skip(1).drop_last() =~= p.skip(1));
    assert(q[0] == p[0]);
    lemma_devices_len(p.skip(1));
    lemma_devices_len(q.skip(1));
}

/// Two configurations have framebuffers of the same shape exactly where their
/// three numbers are the same; what the devices show does not matter.
pub proof fn lemma_shape_is_three_numbers(a: NodemModel, b: NodemModel)
    ensures
        same_shape(a, b) <==> (a.width, a.height, a.bits_per_pixel) == (
            b.width,
            b.height,
            b.bits_per_pixel,
        ),
        same_shape(a, b) ==> a.buffer_len() == b.buffer_len(),
        same_shape(a, NodemModel { devices: b.devices, ..a }),
{
}

} // verus!

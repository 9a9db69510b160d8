//! Device discovery: which advertisers are printers of ours, and which of the
//! candidates found over USB, Bluetooth and BLE are one and the same printer.

use crate::models::{
    bt_model_for_name, has_serial_shape, has_supvan_oui, identified, is_supvan_oui,
    is_supvan_serial_name, last_named, mdl_is_found_behind_other_fields, mdl_of, Registry,
};
use crate::text::{
    ascii_lower, ascii_lower_char, chars_of, is_alnum, is_alnum_char, is_digit, lowercase,
    same_text,
};
use vstd::prelude::*;

verus! {

// ---------------------------------------------------------------------------
// BLE
// ---------------------------------------------------------------------------

/// One BLE-attached candidate, ready to cross-correlate with USB and Bluetooth.
#[derive(Debug)]
pub struct BleCandidate {
    pub address: String,
    pub name: String,
}

/// What an LE scan reported of one device.
#[derive(Debug)]
pub struct Advert {
    pub address: String,
    /// Absent where the device gave no name.
    pub name: Option<String>,
    /// The advertised GATT services, as 128-bit numbers.
    pub services: Vec<u128>,
}

/// The 128-bit number of a 16-bit Bluetooth service number.
pub open spec fn service_number(short: int) -> int {
    short * 0x1_0000_0000_0000_0000_0000_0000 + 0x1000_8000_0080_5f9b_34fb
}

/// The GATT services that are the signature of BLE printing.
pub open spec fn is_print_service_number(n: int) -> bool {
    n == service_number(0xfee7) || n == service_number(0xe0ff) || n == service_number(0xff00)
}

/// Whether a GATT service is one that printers of ours print over.
pub fn is_print_service(uuid: u128) -> (r: bool)
    ensures
        r == is_print_service_number(uuid as int),
{
    uuid == 0x0000_fee7_0000_1000_8000_0080_5f9b_34fbu128 || uuid
        == 0x0000_e0ff_0000_1000_8000_0080_5f9b_34fbu128 || uuid
        == 0x0000_ff00_0000_1000_8000_0080_5f9b_34fbu128
}

/// Some advertised service is one to print over.
pub open spec fn advertises_printing(services: Seq<u128>) -> bool {
    exists|i: int| 0 <= i < services.len() && is_print_service_number(#[trigger] services[i] as int)
}

fn any_print_service(services: &[u128]) -> (r: bool)
    ensures
        r == advertises_printing(services@),
{
    let mut i: usize = 0;
    while i < services.len()
        invariant
            i <= services@.len(),
            forall|j: int|
                0 <= j < i ==> !is_print_service_number(#[trigger] services@[j] as int),
        decreases services@.len() - i,
    {
        if is_print_service(services[i]) {
            assert(is_print_service_number(services@[i as int] as int));
            return true;
        }
        i += 1;
    }
    false
}

/// True if a scanned device looks like a BLE printer of ours: the assigned
/// address block plus the firmware serial-name shape.
pub fn is_supvan_ble(addr: &str, name: &str) -> (r: bool)
    ensures
        r == (has_supvan_oui(addr@) && has_serial_shape(name@)),
{
    is_supvan_oui(addr) && is_supvan_serial_name(name)
}

/// The name of an advertiser; empty where it gave none.
pub open spec fn advert_name(a: Advert) -> Seq<char> {
    match a.name {
        Some(n) => n@,
        None => Seq::empty(),
    }
}

/// The advertiser is a BLE printer.
///
/// The service is the definitive discriminator: classic printers expose only
/// the serial port and are excluded here even if the scan echoes them.
pub open spec fn is_ble_printer(a: Advert) -> bool {
    advertises_printing(a.services@) && has_supvan_oui(a.address@) && has_serial_shape(
        advert_name(a),
    )
}

/// Address and name of each BLE printer, in the order of the scan.
pub open spec fn ble_printers(adverts: Seq<Advert>) -> Seq<(Seq<char>, Seq<char>)>
    decreases adverts.len(),
{
    if adverts.len() == 0 {
        Seq::empty()
    } else if is_ble_printer(adverts.last()) {
        ble_printers(adverts.drop_last()).push(
            (adverts.last().address@, advert_name(adverts.last())),
        )
    } else {
        ble_printers(adverts.drop_last())
    }
}

/// Address and name of each candidate.
pub open spec fn ble_pairs(list: Seq<BleCandidate>) -> Seq<(Seq<char>, Seq<char>)> {
    list.map_values(|c: BleCandidate| (c.address@, c.name@))
}

/// The candidates among the devices that an LE scan reported.
pub fn list_candidates(adverts: &[Advert]) -> (r: Vec<BleCandidate>)
    ensures
        ble_pairs(r@) == ble_printers(adverts@),
{
    let mut out: Vec<BleCandidate> = Vec::new();
    let mut i: usize = 0;
    assert(adverts@.take(0) =~= Seq::<Advert>::empty());
    assert(ble_pairs(out@) =~= Seq::<(Seq<char>, Seq<char>)>::empty());
    while i < adverts.len()
        invariant
            i <= adverts@.len(),
            ble_pairs(out@) == ble_printers(adverts@.take(i as int)),
        decreases adverts@.len() - i,
    {
        let a: &Advert = &adverts[i];
        let name: String = match &a.name {
            Some(n) => n.clone(),
            None => String::new(),
        };
        assert(adverts@.take(i + 1).drop_last() =~= adverts@.take(i as int));
        assert(adverts@.take(i + 1).last() == *a);
        if any_print_service(&a.services) && is_supvan_ble(a.address.as_str(), name.as_str()) {
            let c: BleCandidate = BleCandidate { address: a.address.clone(), name };
            assert(ble_pairs(out@.push(c)) =~= ble_pairs(out@).push((c.address@, c.name@)));
            out.push(c);
        }
        i += 1;
    }
    assert(adverts@.take(i as int) =~= adverts@);
    out
}

// ---------------------------------------------------------------------------
// Slugs
// ---------------------------------------------------------------------------

/// The words of a name, lowercased and joined by hyphens: whatever is no ASCII
/// letter or digit separates words.
pub open spec fn hyphenated(s: Seq<char>) -> Seq<char>
    decreases s.len(),
{
    if s.len() == 0 {
        Seq::empty()
    } else {
        let front = hyphenated(s.drop_last());
        if !is_alnum(s.last()) {
            front
        } else if front.len() > 0 && !is_alnum(s[s.len() - 2]) {
            front.push('-').push(ascii_lower(s.last()))
        } else {
            front.push(ascii_lower(s.last()))
        }
    }
}

/// The slug of a name.
pub open spec fn slug_of(name: Seq<char>) -> Seq<char> {
    if hyphenated(name).len() == 0 {
        "printer"@
    } else {
        hyphenated(name)
    }
}

/// Slugify a printer-reported name into something that can be a queue name.
/// Lowercase ASCII alphanumerics; everything else becomes a hyphen.
pub fn slug(name: &str) -> (r: String)
    ensures
        r@ == slug_of(name@),
{
    let v: Vec<char> = chars_of(name);
    let mut out: String = String::new();
    let mut empty: bool = true;
    let mut i: usize = 0;
    assert(v@.take(0) =~= Seq::<char>::empty());
    while i < v.len()
        invariant
            i <= v@.len(),
            out@ == hyphenated(v@.take(i as int)),
            empty == (out@.len() == 0),
        decreases v@.len() - i,
    {
        proof {
            let t = v@.take(i + 1);
            assert(t.drop_last() =~= v@.take(i as int));
            assert(t.last() == v@[i as int]);
            if i > 0 {
                assert(t[t.len() - 2] == v@[i - 1]);
            } else {
                assert(hyphenated(v@.take(0)) =~= Seq::<char>::empty()) by {
                    assert(v@.take(0).len() == 0);
                }
            }
        }
        if is_alnum_char(v[i]) {
            if !empty && !is_alnum_char(v[i - 1]) {
                out.push('-');
            }
            out.push(ascii_lower_char(v[i]));
            empty = false;
        }
        i += 1;
    }
    assert(v@.take(i as int) =~= name@);
    if empty {
        "printer".to_owned()
    } else {
        out
    }
}

/// The shape of a slug: lowercase letters and digits in words that single
/// hyphens join.
pub open spec fn is_slug(s: Seq<char>) -> bool {
    &&& s.len() > 0
    &&& s[0] != '-'
    &&& s.last() != '-'
    &&& forall|i: int|
        0 <= i < s.len() ==> #[trigger] s[i] == '-' || is_digit(s[i]) || ('a' <= s[i] && s[i]
            <= 'z')
    &&& forall|i: int| 0 < i < s.len() && #[trigger] s[i] == '-' ==> s[i - 1] != '-'
}

proof fn lemma_hyphenated(s: Seq<char>)
    ensures
        hyphenated(s).len() > 0 ==> is_slug(hyphenated(s)),
    decreases s.len(),
{
    if s.len() > 0 {
        lemma_hyphenated(s.drop_last());
    }
}

proof fn lemma_slug_fixed(s: Seq<char>, i: int)
    requires
        is_slug(s),
        0 <= i <= s.len(),
    ensures
        hyphenated(s.take(i)) == if i > 0 && s[i - 1] == '-' {
            s.take(i - 1)
        } else {
            s.take(i)
        },
    decreases i,
{
    if i == 0 {
        assert(s.take(0) =~= Seq::<char>::empty());
    } else {
        lemma_slug_fixed(s, i - 1);
        let t = s.take(i);
        assert(t.drop_last() =~= s.take(i - 1));
        assert(t.last() == s[i - 1]);
        if i >= 2 {
            assert(t[t.len() - 2] == s[i - 2]);
        }
        if s[i - 1] != '-' {
            assert(is_alnum(s[i - 1]) && ascii_lower(s[i - 1]) == s[i - 1]);
            if i >= 2 && s[i - 2] == '-' {
                assert(i >= 3);
                assert(s.take(i - 2).push('-').push(s[i - 1]) =~= s.take(i));
            } else {
                assert(s.take(i - 1).push(s[i - 1]) =~= s.take(i));
            }
        }
    }
}

/// A slug is never empty, has the shape of a queue name, and is its own slug.
pub proof fn slugs_are_queue_names(name: Seq<char>)
    ensures
        is_slug(slug_of(name)),
        slug_of(slug_of(name)) == slug_of(name),
{
    reveal_strlit("printer");
    lemma_hyphenated(name);
    let s = slug_of(name);
    lemma_slug_fixed(s, s.len() as int);
    assert(s.take(s.len() as int) =~= s);
}

// ---------------------------------------------------------------------------
// Grouping
// ---------------------------------------------------------------------------

/// A printer found on USB.
#[derive(Debug)]
pub struct UsbCandidate {
    /// The serial the printer reported, where it answered.
    pub printer_name: Option<String>,
    /// The bus address, which stands in for the serial otherwise.
    pub uri_id: String,
    pub model_name: String,
    pub hidraw_path: String,
}

/// A printer found over classic Bluetooth.
#[derive(Debug)]
pub struct BtCandidate {
    pub name: String,
    pub address: String,
}

/// `a` comes before `b` in dictionary order.
pub open spec fn precedes(a: Seq<char>, b: Seq<char>) -> bool
    decreases a.len(),
{
    if b.len() == 0 {
        false
    } else if a.len() == 0 {
        true
    } else if a[0] != b[0] {
        a[0] < b[0]
    } else {
        precedes(a.drop_first(), b.drop_first())
    }
}

fn comes_before(a: &str, b: &str) -> (r: bool)
    ensures
        r == precedes(a@, b@),
{
    let x: Vec<char> = chars_of(a);
    let y: Vec<char> = chars_of(b);
    let mut i: usize = 0;
    assert(x@.skip(0) =~= x@);
    assert(y@.skip(0) =~= y@);
    while i < x.len() && i < y.len()
        invariant
            i <= x@.len(),
            i <= y@.len(),
            x@ == a@,
            y@ == b@,
            precedes(x@.skip(i as int), y@.skip(i as int)) == precedes(a@, b@),
        decreases x@.len() - i,
    {
        if x[i] != y[i] {
            return x[i] < y[i];
        }
        assert(x@.skip(i as int).drop_first() =~= x@.skip(i + 1));
        assert(y@.skip(i as int).drop_first() =~= y@.skip(i + 1));
        i += 1;
    }
    i < y.len()
}

proof fn lemma_precedes_total(a: Seq<char>, b: Seq<char>)
    ensures
        precedes(a, b) || a == b || precedes(b, a),
        !(precedes(a, b) && precedes(b, a)),
        precedes(a, b) ==> a != b,
    decreases a.len(),
{
    if a.len() > 0 && b.len() > 0 && a[0] == b[0] {
        lemma_precedes_total(a.drop_first(), b.drop_first());
        if a.drop_first() == b.drop_first() {
            assert(a =~= seq![a[0]] + a.drop_first());
            assert(b =~= seq![b[0]] + b.drop_first());
        }
    } else if a.len() == 0 && b.len() == 0 {
        assert(a =~= b);
    }
}

proof fn lemma_precedes_transitive(a: Seq<char>, b: Seq<char>, c: Seq<char>)
    requires
        precedes(a, b),
        precedes(b, c),
    ensures
        precedes(a, c),
    decreases a.len(),
{
    if a.len() > 0 && b.len() > 0 && c.len() > 0 && a[0] == b[0] && b[0] == c[0] {
        lemma_precedes_transitive(a.drop_first(), b.drop_first(), c.drop_first());
    }
}

/// The list with `name` put in its place, where it is not in it already.
pub open spec fn with_name(list: Seq<Seq<char>>, name: Seq<char>) -> Seq<Seq<char>>
    decreases list.len(),
{
    if list.len() == 0 || precedes(name, list[0]) {
        seq![name] + list
    } else if list[0] == name {
        list
    } else {
        seq![list[0]] + with_name(list.drop_first(), name)
    }
}

/// The list with all of `more` put in their places.
pub open spec fn with_names(list: Seq<Seq<char>>, more: Seq<Seq<char>>) -> Seq<Seq<char>>
    decreases more.len(),
{
    if more.len() == 0 {
        list
    } else {
        with_name(with_names(list, more.drop_last()), more.last())
    }
}

/// Each name comes before the next.
pub open spec fn ascending(list: Seq<Seq<char>>) -> bool {
    forall|i: int, j: int|
        0 <= i < j < list.len() ==> precedes(#[trigger] list[i], #[trigger] list[j])
}

proof fn lemma_with_name(list: Seq<Seq<char>>, name: Seq<char>)
    requires
        ascending(list),
    ensures
        ascending(with_name(list, name)),
        forall|k: Seq<char>| #[trigger]
            with_name(list, name).contains(k) <==> (list.contains(k) || k == name),
    decreases list.len(),
{
    let out = with_name(list, name);
    if list.len() == 0 || precedes(name, list[0]) {
        assert(out[0] == name);
        assert forall|i: int, j: int| 0 <= i < j < out.len() implies precedes(
            #[trigger] out[i],
            #[trigger] out[j],
        ) by {
            assert(out[j] == list[j - 1]);
            if i == 0 {
                if j > 1 {
                    lemma_precedes_transitive(name, list[0], list[j - 1]);
                }
            } else {
                assert(out[i] == list[i - 1]);
            }
        }
        assert forall|k: Seq<char>| #[trigger] out.contains(k) <==> (list.contains(k) || k
            == name) by {
            if list.contains(k) {
                let i = choose|i: int| 0 <= i < list.len() && list[i] == k;
                assert(out[i + 1] == k);
            }
            if out.contains(k) {
                let i = choose|i: int| 0 <= i < out.len() && out[i] == k;
                if i > 0 {
                    assert(list[i - 1] == k);
                }
            }
        }
    } else if list[0] != name {
        let rest = list.drop_first();
        let tail = with_name(rest, name);
        assert forall|i: int, j: int| 0 <= i < j < rest.len() implies precedes(
            #[trigger] rest[i],
            #[trigger] rest[j],
        ) by {
            assert(precedes(list[i + 1], list[j + 1]));
        }
        lemma_with_name(rest, name);
        lemma_precedes_total(name, list[0]);
        assert forall|i: int, j: int| 0 <= i < j < out.len() implies precedes(
            #[trigger] out[i],
            #[trigger] out[j],
        ) by {
            assert(out[j] == tail[j - 1]);
            if i == 0 {
                assert(tail.contains(tail[j - 1]));
                if rest.contains(tail[j - 1]) {
                    let m = choose|m: int| 0 <= m < rest.len() && rest[m] == tail[j - 1];
                    assert(list[m + 1] == rest[m]);
                }
            } else {
                assert(out[i] == tail[i - 1]);
            }
        }
        assert forall|k: Seq<char>| #[trigger] out.contains(k) <==> (list.contains(k) || k
            == name) by {
            if list.contains(k) {
                let i = choose|i: int| 0 <= i < list.len() && list[i] == k;
                if i == 0 {
                    assert(out[0] == k);
                } else {
                    assert(rest[i - 1] == k);
                    assert(tail.contains(k));
                    let m = choose|m: int| 0 <= m < tail.len() && tail[m] == k;
                    assert(out[m + 1] == k);
                }
            }
            if k == name {
                assert(tail.contains(k));
                let m = choose|m: int| 0 <= m < tail.len() && tail[m] == k;
                assert(out[m + 1] == k);
            }
            if out.contains(k) {
                let i = choose|i: int| 0 <= i < out.len() && out[i] == k;
                if i == 0 {
                    assert(list[0] == k);
                } else {
                    assert(tail[i - 1] == k);
                    assert(tail.contains(k));
                    if rest.contains(k) {
                        let m = choose|m: int| 0 <= m < rest.len() && rest[m] == k;
                        assert(list[m + 1] == k);
                    }
                }
            }
        }
    } else {
        assert(list.contains(name)) by {
            assert(list[0] == name);
        }
    }
}

proof fn lemma_with_names(list: Seq<Seq<char>>, more: Seq<Seq<char>>)
    requires
        ascending(list),
    ensures
        ascending(with_names(list, more)),
        forall|k: Seq<char>| #[trigger]
            with_names(list, more).contains(k) <==> (list.contains(k) || more.contains(k)),
    decreases more.len(),
{
    if more.len() > 0 {
        let front = more.drop_last();
        lemma_with_names(list, front);
        lemma_with_name(with_names(list, front), more.last());
        assert forall|k: Seq<char>| #[trigger] with_names(list, more).contains(k) <==> (
        list.contains(k) || more.contains(k)) by {
            assert(with_name(with_names(list, front), more.last()).contains(k) <==> (with_names(
                list,
                front,
            ).contains(k) || k == more.last()));
            assert(with_names(list, front).contains(k) <==> (list.contains(k) || front.contains(
                k,
            )));
            if more.contains(k) {
                let i = choose|i: int| 0 <= i < more.len() && more[i] == k;
                if i < front.len() {
                    assert(front[i] == k);
                }
            }
            if front.contains(k) {
                let i = choose|i: int| 0 <= i < front.len() && front[i] == k;
                assert(more[i] == k);
            }
            assert(more.contains(more.last())) by {
                assert(more[more.len() - 1] == more.last());
            }
        }
    }
}

/// What is found on a transport under a name.
pub trait Candidate {
    /// The name that the candidate is grouped under.
    spec fn key(&self) -> Seq<char>;

    /// The name that the candidate is grouped under.
    fn key_text(&self) -> (r: String)
        ensures
            r@ == self.key(),
    ;
}

impl Candidate for UsbCandidate {
    open spec fn key(&self) -> Seq<char> {
        match self.printer_name {
            Some(n) => n@,
            None => self.uri_id@,
        }
    }

    fn key_text(&self) -> (r: String) {
        match &self.printer_name {
            Some(n) => n.clone(),
            None => self.uri_id.clone(),
        }
    }
}

impl Candidate for BtCandidate {
    open spec fn key(&self) -> Seq<char> {
        self.name@
    }

    fn key_text(&self) -> (r: String) {
        self.name.clone()
    }
}

impl Candidate for BleCandidate {
    open spec fn key(&self) -> Seq<char> {
        self.name@
    }

    fn key_text(&self) -> (r: String) {
        self.name.clone()
    }
}

/// The names that the candidates of one transport are grouped under.
pub open spec fn keys<C: Candidate>(list: Seq<C>) -> Seq<Seq<char>> {
    list.map_values(|c: C| c.key())
}

/// Which candidates are one printer, by their places in the three lists.
pub struct GroupView {
    pub name: Seq<char>,
    pub usb: Option<int>,
    pub bt: Option<int>,
    pub ble: Option<int>,
}

/// The names of all candidates, each once, in dictionary order.
pub open spec fn all_names(
    usb: Seq<Seq<char>>,
    bt: Seq<Seq<char>>,
    ble: Seq<Seq<char>>,
) -> Seq<Seq<char>> {
    with_names(with_names(with_names(Seq::empty(), usb), bt), ble)
}

/// One group per name: on each transport the last candidate of that name.
pub open spec fn grouped(
    usb: Seq<Seq<char>>,
    bt: Seq<Seq<char>>,
    ble: Seq<Seq<char>>,
) -> Seq<GroupView> {
    all_names(usb, bt, ble).map_values(
        |name: Seq<char>|
            GroupView {
                name,
                usb: last_named(usb, name),
                bt: last_named(bt, name),
                ble: last_named(ble, name),
            },
    )
}

/// The transports that a printer of a household may be split over.
#[derive(Debug, Clone, Copy, PartialEq, Eq)]
pub enum Wire {
    Usb,
    Bluetooth,
}

/// Found on that transport alone.
pub open spec fn found_only_on(g: GroupView, wire: Wire) -> bool {
    &&& g.usb is Some <==> wire is Usb
    &&& g.bt is Some <==> wire is Bluetooth
    &&& g.ble is None
}

/// The place of the only group found on `wire` alone; `-1` for none, `-2` for
/// several.
pub open spec fn sole(groups: Seq<GroupView>, wire: Wire) -> int
    decreases groups.len(),
{
    if groups.len() == 0 {
        -1
    } else {
        let front = sole(groups.drop_last(), wire);
        if !found_only_on(groups.last(), wire) {
            front
        } else if front == -1 {
            groups.len() - 1
        } else {
            -2
        }
    }
}

/// A single USB-only printer and a single Bluetooth-only one are taken for one,
/// under the Bluetooth name.
pub open spec fn merged(groups: Seq<GroupView>) -> Seq<GroupView> {
    let u = sole(groups, Wire::Usb);
    let b = sole(groups, Wire::Bluetooth);
    if u >= 0 && b >= 0 {
        groups.update(b, GroupView { usb: groups[u].usb, ..groups[b] }).remove(u)
    } else {
        groups
    }
}

/// The groups that discovery reports.
pub open spec fn reported(
    usb: Seq<UsbCandidate>,
    bt: Seq<BtCandidate>,
    ble: Seq<BleCandidate>,
) -> Seq<GroupView> {
    merged(grouped(keys(usb), keys(bt), keys(ble)))
}

/// A printer as discovery reports it.
#[derive(Debug)]
pub struct FoundPrinter {
    pub info: String,
    pub uri: String,
    pub device_id: String,
    /// The name that the transports are registered under.
    pub slug: String,
    pub hidraw_path: Option<String>,
    pub bt_address: Option<String>,
    pub ble_address: Option<String>,
}

/// The model that the table gives an advertised name, or a placeholder.
pub open spec fn advertised_model(reg: Registry, name: Seq<char>, otherwise: Seq<char>) -> Seq<
    char,
> {
    match identified(reg, lowercase(name)) {
        Some(e) => e.model,
        None => otherwise,
    }
}

/// The model that a group is reported as: what USB says, else what the
/// Bluetooth name stands for, else what the BLE name stands for.
pub open spec fn model_of(
    reg: Registry,
    g: GroupView,
    usb: Seq<UsbCandidate>,
    bt: Seq<BtCandidate>,
    ble: Seq<BleCandidate>,
) -> Seq<char> {
    match (g.usb, g.bt, g.ble) {
        (Some(u), _, _) => usb[u].model_name@,
        (None, Some(b), _) => advertised_model(reg, bt[b].name@, "T50 Series"@),
        (None, None, Some(e)) => advertised_model(reg, ble[e].name@, "E-Series"@),
        (None, None, None) => "T50 Series"@,
    }
}

/// The device ID of a model.
pub open spec fn device_id_of(model: Seq<char>) -> Seq<char> {
    "MFG:Supvan;MDL:"@ + model + ";CMD:SUPVAN;"@
}

/// The text of an optional string.
pub open spec fn text_of(s: Option<String>) -> Option<Seq<char>> {
    match s {
        Some(s) => Some(s@),
        None => None,
    }
}

/// How a group is reported.
pub open spec fn is_report_of(
    reg: Registry,
    d: FoundPrinter,
    g: GroupView,
    usb: Seq<UsbCandidate>,
    bt: Seq<BtCandidate>,
    ble: Seq<BleCandidate>,
) -> bool {
    let model = model_of(reg, g, usb, bt, ble);
    &&& d.info@ == "Supvan "@ + model + " "@ + g.name
    &&& d.uri@ == "supvan://"@ + slug_of(g.name)
    &&& d.device_id@ == device_id_of(model)
    &&& d.slug@ == slug_of(g.name)
    &&& text_of(d.hidraw_path) == match g.usb {
        Some(u) => Some(usb[u].hidraw_path@),
        None => None,
    }
    &&& text_of(d.bt_address) == match g.bt {
        Some(b) => Some(bt[b].address@),
        None => None,
    }
    &&& text_of(d.ble_address) == match g.ble {
        Some(e) => Some(ble[e].address@),
        None => None,
    }
}

/// The texts of a list of strings.
pub open spec fn texts(list: Seq<String>) -> Seq<Seq<char>> {
    list.map_values(|s: String| s@)
}

proof fn lemma_place(list: Seq<Seq<char>>, name: Seq<char>, k: int)
    requires
        0 <= k <= list.len(),
        forall|j: int|
            0 <= j < k ==> #[trigger] list[j] != name && !precedes(name, list[j]),
        k < list.len() ==> list[k] == name || precedes(name, list[k]),
    ensures
        with_name(list, name) == if k < list.len() && list[k] == name {
            list
        } else {
            list.insert(k, name)
        },
    decreases k,
{
    if k > 0 {
        let rest = list.drop_first();
        assert forall|j: int| 0 <= j < k - 1 implies #[trigger] rest[j] != name && !precedes(
            name,
            rest[j],
        ) by {
            assert(rest[j] == list[j + 1]);
        }
        lemma_place(rest, name, k - 1);
        assert(list[0] != name && !precedes(name, list[0]));
        assert(seq![list[0]] + rest =~= list);
        assert(seq![list[0]] + rest.insert(k - 1, name) =~= list.insert(k, name));
    } else if list.len() == 0 {
        assert(seq![name] + list =~= list.insert(0, name));
    } else {
        lemma_precedes_total(name, list[0]);
        assert(seq![name] + list =~= list.insert(0, name));
    }
}

/// Puts a name in its place, where it is not in the list already.
fn put_name(list: &mut Vec<String>, name: &str)
    ensures
        texts(final(list)@) == with_name(texts(old(list)@), name@),
{
    let ghost held = texts(list@);
    let mut k: usize = 0;
    while k < list.len() && !same_text(list[k].as_str(), name) && !comes_before(
        name,
        list[k].as_str(),
    )
        invariant
            k <= list@.len(),
            held == texts(list@),
            forall|j: int|
                0 <= j < k ==> #[trigger] held[j] != name@ && !precedes(name@, held[j]),
        decreases list@.len() - k,
    {
        k += 1;
    }
    proof {
        lemma_place(held, name@, k as int);
    }
    if k == list.len() || !same_text(list[k].as_str(), name) {
        let ghost before = list@;
        list.insert(k, name.to_owned());
        assert(texts(list@) =~= held.insert(k as int, name@));
    }
}

fn put_names(list: &mut Vec<String>, more: &[String])
    ensures
        texts(final(list)@) == with_names(texts(old(list)@), texts(more@)),
{
    let ghost held = texts(list@);
    let ghost all = texts(more@);
    let mut i: usize = 0;
    assert(all.take(0) =~= Seq::<Seq<char>>::empty());
    while i < more.len()
        invariant
            i <= more@.len(),
            all == texts(more@),
            texts(list@) == with_names(held, all.take(i as int)),
        decreases more@.len() - i,
    {
        assert(all.take(i + 1).drop_last() =~= all.take(i as int));
        put_name(list, more[i].as_str());
        i += 1;
    }
    assert(all.take(i as int) =~= all);
}

/// Where the name stands last.
fn last_place(list: &[String], name: &str) -> (r: Option<usize>)
    ensures
        match (r, last_named(texts(list@), name@)) {
            (Some(a), Some(b)) => a == b && a < list@.len(),
            (None, None) => true,
            _ => false,
        },
{
    let ghost all = texts(list@);
    let mut n: usize = list.len();
    assert(all.take(n as int) =~= all);
    while n > 0
        invariant
            n <= list@.len(),
            all == texts(list@),
            last_named(all.take(n as int), name@) == last_named(all, name@),
        decreases n,
    {
        assert(all.take(n as int).drop_last() =~= all.take(n - 1));
        if same_text(list[n - 1].as_str(), name) {
            return Some(n - 1);
        }
        n -= 1;
    }
    None
}

/// Which candidates are one printer, by their places in the three lists.
#[derive(Debug)]
struct Group {
    name: String,
    usb: Option<usize>,
    bt: Option<usize>,
    ble: Option<usize>,
}

spec fn place(p: Option<usize>) -> Option<int> {
    match p {
        Some(i) => Some(i as int),
        None => None,
    }
}

impl View for Group {
    type V = GroupView;

    closed spec fn view(&self) -> GroupView {
        GroupView {
            name: self.name@,
            usb: place(self.usb),
            bt: place(self.bt),
            ble: place(self.ble),
        }
    }
}

spec fn group_views(list: Seq<Group>) -> Seq<GroupView> {
    list.map_values(|g: Group| g@)
}

/// All places of the group are in the lists.
spec fn in_lists(g: Group, usb: int, bt: int, ble: int) -> bool {
    &&& g.usb matches Some(u) ==> u < usb
    &&& g.bt matches Some(b) ==> b < bt
    &&& g.ble matches Some(e) ==> e < ble
}

spec fn all_in_lists(list: Seq<Group>, usb: int, bt: int, ble: int) -> bool {
    forall|i: int| 0 <= i < list.len() ==> in_lists(#[trigger] list[i], usb, bt, ble)
}

fn group_names(usb: &[String], bt: &[String], ble: &[String]) -> (r: Vec<Group>)
    ensures
        group_views(r@) == grouped(texts(usb@), texts(bt@), texts(ble@)),
        all_in_lists(r@, usb@.len() as int, bt@.len() as int, ble@.len() as int),
{
    let mut names: Vec<String> = Vec::new();
    assert(texts(names@) =~= Seq::<Seq<char>>::empty());
    put_names(&mut names, usb);
    put_names(&mut names, bt);
    put_names(&mut names, ble);
    let ghost all = grouped(texts(usb@), texts(bt@), texts(ble@));
    let mut out: Vec<Group> = Vec::new();
    let mut i: usize = 0;
    while i < names.len()
        invariant
            i <= names@.len(),
            texts(names@) == all_names(texts(usb@), texts(bt@), texts(ble@)),
            all == grouped(texts(usb@), texts(bt@), texts(ble@)),
            out@.len() == i,
            forall|j: int| 0 <= j < i ==> (#[trigger] out@[j])@ == all[j],
            forall|j: int|
                0 <= j < i ==> in_lists(
                    #[trigger] out@[j],
                    usb@.len() as int,
                    bt@.len() as int,
                    ble@.len() as int,
                ),
        decreases names@.len() - i,
    {
        let name: String = names[i].clone();
        assert(texts(names@)[i as int] == name@);
        let u: Option<usize> = last_place(usb, name.as_str());
        let b: Option<usize> = last_place(bt, name.as_str());
        let e: Option<usize> = last_place(ble, name.as_str());
        out.push(Group { name, usb: u, bt: b, ble: e });
        i += 1;
    }
    assert(group_views(out@) =~= all);
    out
}

/// The place of the only group found on `wire` alone.
fn find_sole(list: &[Group], wire: Wire) -> (r: Option<usize>)
    ensures
        match r {
            Some(i) => i < list@.len() && sole(group_views(list@), wire) == i,
            None => sole(group_views(list@), wire) < 0,
        },
{
    let ghost all = group_views(list@);
    let mut count: usize = 0;
    let mut at: usize = 0;
    let mut i: usize = 0;
    assert(all.take(0) =~= Seq::<GroupView>::empty());
    while i < list.len()
        invariant
            i <= list@.len(),
            all == group_views(list@),
            count <= 2,
            sole(all.take(i as int), wire) == if count == 0 {
                -1
            } else if count == 1 {
                at as int
            } else {
                -2
            },
            count == 1 ==> at < list@.len(),
        decreases list@.len() - i,
    {
        assert(all.take(i + 1).drop_last() =~= all.take(i as int));
        assert(all.take(i + 1).last() == list@[i as int]@);
        let g: &Group = &list[i];
        let on_wire: bool = match wire {
            Wire::Usb => g.usb.is_some() && g.bt.is_none(),
            Wire::Bluetooth => g.usb.is_none() && g.bt.is_some(),
        };
        if on_wire && g.ble.is_none() {
            if count == 0 {
                count = 1;
                at = i;
            } else {
                count = 2;
            }
        }
        i += 1;
    }
    assert(all.take(i as int) =~= all);
    if count == 1 {
        Some(at)
    } else {
        None
    }
}

fn merge_groups(list: Vec<Group>) -> (r: Vec<Group>)
    ensures
        group_views(r@) == merged(group_views(list@)),
        forall|n: int, m: int, k: int|
            all_in_lists(list@, n, m, k) ==> #[trigger] all_in_lists(r@, n, m, k),
{
    let mut groups: Vec<Group> = list;
    let ghost before = groups@;
    let ghost all = group_views(groups@);
    match (find_sole(&groups, Wire::Usb), find_sole(&groups, Wire::Bluetooth)) {
        (Some(u), Some(b)) => {
            let usb: Option<usize> = groups[u].usb;
            let joined: Group = Group {
                name: groups[b].name.clone(),
                usb,
                bt: groups[b].bt,
                ble: groups[b].ble,
            };
            let ghost j = joined;
            groups.set(b, joined);
            groups.remove(u);
            proof {
                assert(groups@ == before.update(b as int, j).remove(u as int));
                assert(j@ == (GroupView { usb: all[u as int].usb, ..all[b as int] }));
                assert(group_views(groups@) =~= merged(all));
                assert forall|n: int, m: int, k: int|
                    all_in_lists(before, n, m, k) implies #[trigger] all_in_lists(groups@, n, m, k) by {
                    assert(in_lists(before[u as int], n, m, k));
                    assert(in_lists(before[b as int], n, m, k));
                    assert forall|i: int| 0 <= i < groups@.len() implies in_lists(
                        #[trigger] groups@[i],
                        n,
                        m,
                        k,
                    ) by {
                        let o = if i < u { i } else { i + 1 };
                        if o != b {
                            assert(groups@[i] == before[o]);
                            assert(in_lists(before[o], n, m, k));
                        }
                    }
                }
            }
            groups
        },
        _ => groups,
    }
}

/// The model that the table gives an advertised name, or a placeholder.
fn model_or(reg: &Registry, name: &str, otherwise: &str) -> (r: String)
    ensures
        r@ == advertised_model(*reg, name@, otherwise@),
{
    match bt_model_for_name(reg, name) {
        Some(m) => m.to_owned(),
        None => otherwise.to_owned(),
    }
}

fn report_group(
    reg: &Registry,
    g: &Group,
    usb: &[UsbCandidate],
    bt: &[BtCandidate],
    ble: &[BleCandidate],
) -> (r: FoundPrinter)
    requires
        in_lists(*g, usb@.len() as int, bt@.len() as int, ble@.len() as int),
    ensures
        is_report_of(*reg, r, g@, usb@, bt@, ble@),
{
    let model: String = match (g.usb, g.bt, g.ble) {
        (Some(u), _, _) => usb[u].model_name.clone(),
        (None, Some(b), _) => model_or(reg, bt[b].name.as_str(), "T50 Series"),
        (None, None, Some(e)) => model_or(reg, ble[e].name.as_str(), "E-Series"),
        (None, None, None) => "T50 Series".to_owned(),
    };
    let slug: String = slug(g.name.as_str());
    let mut info: String = "Supvan ".to_owned();
    info.append(model.as_str());
    info.append(" ");
    info.append(g.name.as_str());
    let mut uri: String = "supvan://".to_owned();
    uri.append(slug.as_str());
    let mut device_id: String = "MFG:Supvan;MDL:".to_owned();
    device_id.append(model.as_str());
    device_id.append(";CMD:SUPVAN;");
    let hidraw_path: Option<String> = match g.usb {
        Some(u) => Some(usb[u].hidraw_path.clone()),
        None => None,
    };
    let bt_address: Option<String> = match g.bt {
        Some(b) => Some(bt[b].address.clone()),
        None => None,
    };
    let ble_address: Option<String> = match g.ble {
        Some(e) => Some(ble[e].address.clone()),
        None => None,
    };
    FoundPrinter { info, uri, device_id, slug, hidraw_path, bt_address, ble_address }
}

fn keys_of<C: Candidate>(list: &[C]) -> (r: Vec<String>)
    ensures
        texts(r@) == keys(list@),
{
    let mut out: Vec<String> = Vec::new();
    let mut i: usize = 0;
    while i < list.len()
        invariant
            i <= list@.len(),
            out@.len() == i,
            forall|j: int| 0 <= j < i ==> (#[trigger] out@[j])@ == list@[j].key(),
        decreases list@.len() - i,
    {
        out.push(list[i].key_text());
        i += 1;
    }
    assert(texts(out@) =~= keys(list@));
    out
}

/// Group the candidates by printer-reported name, one report per printer, in
/// dictionary order of the names.
///
/// USB candidates carry the serial the printer reported; Bluetooth and BLE carry
/// it as the advertised name. When they match, the transports collapse into one
/// logical printer. A USB candidate that failed to surface its serial is grouped
/// under its bus address; where that leaves one USB-only and one Bluetooth-only
/// printer, they are merged under the Bluetooth name to keep single-printer
/// households tidy.
pub fn group_candidates(
    reg: &Registry,
    usb: &[UsbCandidate],
    bt: &[BtCandidate],
    ble: &[BleCandidate],
) -> (r: Vec<FoundPrinter>)
    ensures
        r@.len() == reported(usb@, bt@, ble@).len(),
        forall|i: int|
            0 <= i < r@.len() ==> is_report_of(
                *reg,
                #[trigger] r@[i],
                reported(usb@, bt@, ble@)[i],
                usb@,
                bt@,
                ble@,
            ),
{
    let us: Vec<String> = keys_of(usb);
    let bs: Vec<String> = keys_of(bt);
    let es: Vec<String> = keys_of(ble);
    proof {
        assert(texts(us@).len() == us@.len());
        assert(keys(usb@).len() == usb@.len());
        assert(texts(bs@).len() == bs@.len());
        assert(keys(bt@).len() == bt@.len());
        assert(texts(es@).len() == es@.len());
        assert(keys(ble@).len() == ble@.len());
    }
    let separate: Vec<Group> = group_names(&us, &bs, &es);
    let groups: Vec<Group> = merge_groups(separate);
    let ghost all = reported(usb@, bt@, ble@);
    assert(group_views(groups@) == all);
    let mut out: Vec<FoundPrinter> = Vec::new();
    let mut i: usize = 0;
    while i < groups.len()
        invariant
            i <= groups@.len(),
            group_views(groups@) == all,
            all == reported(usb@, bt@, ble@),
            out@.len() == i,
            all_in_lists(groups@, usb@.len() as int, bt@.len() as int, ble@.len() as int),
            forall|j: int|
                0 <= j < i ==> is_report_of(*reg, #[trigger] out@[j], all[j], usb@, bt@, ble@),
        decreases groups@.len() - i,
    {
        assert(all[i as int] == groups@[i as int]@);
        out.push(report_group(reg, &groups[i], usb, bt, ble));
        i += 1;
    }
    out
}

/// The printer that discovery reports where there is no hardware, of the model
/// that the default family describes.
pub fn mock_printer(model: &str) -> (r: FoundPrinter)
    ensures
        r.info@ == "Supvan Mock"@,
        r.uri@ == "mock://t50-001"@,
        r.device_id@ == "MFG:Supvan;MDL:"@ + model@ + ";CMD:KASCRIPT;"@,
        r.slug@ == "t50-001"@,
        r.hidraw_path is None && r.bt_address is None && r.ble_address is None,
{
    let mut device_id: String = "MFG:Supvan;MDL:".to_owned();
    device_id.append(model);
    device_id.append(";CMD:KASCRIPT;");
    FoundPrinter {
        info: "Supvan Mock".to_owned(),
        uri: "mock://t50-001".to_owned(),
        device_id,
        slug: "t50-001".to_owned(),
        hidraw_path: None,
        bt_address: None,
        ble_address: None,
    }
}

// ---------------------------------------------------------------------------
// Laws
// ---------------------------------------------------------------------------

/// Every candidate's name is listed once, in dictionary order, and no other name
/// is.
pub proof fn names_are_listed_once(
    usb: Seq<Seq<char>>,
    bt: Seq<Seq<char>>,
    ble: Seq<Seq<char>>,
    name: Seq<char>,
)
    ensures
        ascending(all_names(usb, bt, ble)),
        all_names(usb, bt, ble).contains(name) <==> usb.contains(name) || bt.contains(name)
            || ble.contains(name),
{
    lemma_with_names(Seq::empty(), usb);
    lemma_with_names(with_names(Seq::empty(), usb), bt);
    lemma_with_names(with_names(with_names(Seq::empty(), usb), bt), ble);
    assert(!Seq::<Seq<char>>::empty().contains(name));
    assert(all_names(usb, bt, ble).contains(name) <==> with_names(
        with_names(Seq::empty(), usb),
        bt,
    ).contains(name) || ble.contains(name));
    assert(with_names(with_names(Seq::empty(), usb), bt).contains(name) <==> with_names(
        Seq::empty(),
        usb,
    ).contains(name) || bt.contains(name));
    assert(with_names(Seq::empty(), usb).contains(name) <==> Seq::<Seq<char>>::empty().contains(
        name,
    ) || usb.contains(name));
}

/// The model of a report is read back from its device ID, where the model's name
/// holds no field separator.
pub proof fn reported_model_is_read_back(model: Seq<char>)
    requires
        !model.contains(';'),
    ensures
        mdl_of(device_id_of(model)) == Some(model),
{
    reveal_strlit("MFG:Supvan;MDL:");
    reveal_strlit(";CMD:SUPVAN;");
    reveal_strlit("MDL:");
    reveal_strlit("MFG:Supvan");
    reveal_strlit("CMD:SUPVAN;");
    let front = "MFG:Supvan"@;
    assert(!front.contains(';'));
    assert(front[1] != "MDL:"@[1]);
    assert(front.subrange(0, 4)[1] == front[1]);
    mdl_is_found_behind_other_fields(front, model, "CMD:SUPVAN;"@);
    assert(front + seq![';'] + "MDL:"@ + model + seq![';'] + "CMD:SUPVAN;"@ =~= device_id_of(model));
}

proof fn lemma_sole(groups: Seq<GroupView>, wire: Wire)
    ensures
        -2 <= sole(groups, wire) < groups.len(),
        sole(groups, wire) >= 0 ==> found_only_on(groups[sole(groups, wire)], wire),
    decreases groups.len(),
{
    if groups.len() > 0 {
        lemma_sole(groups.drop_last(), wire);
    }
}

/// `h` has every transport that `g` has.
pub open spec fn has_transports_of(h: GroupView, g: GroupView) -> bool {
    &&& g.usb is Some ==> h.usb == g.usb
    &&& g.bt is Some ==> h.bt == g.bt
    &&& g.ble is Some ==> h.ble == g.ble
}

/// Merging loses no transport: those of each group are together in a group that
/// is reported.
pub proof fn merging_keeps_every_transport(groups: Seq<GroupView>, i: int)
    requires
        0 <= i < groups.len(),
    ensures
        exists|j: int|
            0 <= j < merged(groups).len() && has_transports_of(
                #[trigger] merged(groups)[j],
                groups[i],
            ),
{
    lemma_sole(groups, Wire::Usb);
    lemma_sole(groups, Wire::Bluetooth);
    let u = sole(groups, Wire::Usb);
    let b = sole(groups, Wire::Bluetooth);
    let out = merged(groups);
    if u >= 0 && b >= 0 {
        assert(u != b);
        let to = if i == u { b } else { i };
        let j = if to < u { to } else { to - 1 };
        assert(has_transports_of(out[j], groups[i]));
    } else {
        assert(has_transports_of(out[i], groups[i]));
    }
}

} // verus!

//! Discovery: which candidates are reported, and which of them as one printer.

use crate::discovery::{
    all_names, ble_pairs, ble_printers, found_only_on, group_candidates, grouped, hyphenated,
    is_ble_printer, is_print_service, is_print_service_number, is_supvan_ble, keys, list_candidates,
    merged, names_are_listed_once, precedes, reported, slug, slugs_are_queue_names, sole, Advert,
    BleCandidate, BtCandidate, FoundPrinter, GroupView, UsbCandidate, Wire,
};
use crate::laws::names::{in_assigned_block, lemma_last_named, looks_like_a_serial};
use crate::models::{bt_model_for_name, has_supvan_oui, last_named, Registry};
use crate::text::{ascii_lower, ascii_lowered};
use vstd::prelude::*;

verus! {

// ---------------------------------------------------------------------------
// Grouping
// ---------------------------------------------------------------------------

/// What a USB candidate is called: the serial it reported, or its bus address
/// where it reported none.
pub open spec fn usb_name(u: UsbCandidate) -> Seq<char> {
    match u.printer_name {
        Some(n) => n@,
        None => u.uri_id@,
    }
}

/// The candidates of one transport by name.
pub open spec fn usb_names(list: Seq<UsbCandidate>) -> Seq<Seq<char>> {
    Seq::new(list.len(), |i: int| usb_name(list[i]))
}

pub open spec fn bt_names(list: Seq<BtCandidate>) -> Seq<Seq<char>> {
    Seq::new(list.len(), |i: int| list[i].name@)
}

pub open spec fn ble_names(list: Seq<BleCandidate>) -> Seq<Seq<char>> {
    Seq::new(list.len(), |i: int| list[i].name@)
}

/// Candidate `k` is the last of its name.
pub open spec fn is_last(names: Seq<Seq<char>>, k: int) -> bool {
    &&& 0 <= k < names.len()
    &&& forall|j: int| k < j < names.len() ==> names[j] != names[k]
}

/// The name is one of the first list and of neither of the others.
pub open spec fn only_in(
    name: Seq<char>,
    a: Seq<Seq<char>>,
    b: Seq<Seq<char>>,
    c: Seq<Seq<char>>,
) -> bool {
    a.contains(name) && !b.contains(name) && !c.contains(name)
}

/// The name is the only one that is in the first list alone.
pub open spec fn alone_in(
    name: Seq<char>,
    a: Seq<Seq<char>>,
    b: Seq<Seq<char>>,
    c: Seq<Seq<char>>,
) -> bool {
    &&& only_in(name, a, b, c)
    &&& forall|n: Seq<char>| #[trigger] only_in(n, a, b, c) ==> n == name
}

/// A group holds the last candidate of its name on each wireless transport. Its
/// USB candidate has its name too, or is the household's only printer on USB
/// alone, joined with its only printer on Bluetooth alone.
pub open spec fn is_household_group(
    g: GroupView,
    usb: Seq<Seq<char>>,
    bt: Seq<Seq<char>>,
    ble: Seq<Seq<char>>,
) -> bool {
    &&& g.bt matches Some(b) ==> is_last(bt, b) && bt[b] == g.name
    &&& g.bt is None ==> !bt.contains(g.name)
    &&& g.ble matches Some(e) ==> is_last(ble, e) && ble[e] == g.name
    &&& g.ble is None ==> !ble.contains(g.name)
    &&& g.usb matches Some(u) ==> {
        &&& is_last(usb, u)
        &&& usb[u] == g.name || (alone_in(usb[u], usb, bt, ble) && alone_in(g.name, bt, usb, ble))
    }
    &&& g.usb is None ==> !usb.contains(g.name)
    &&& g.usb is Some || g.bt is Some || g.ble is Some
}

proof fn lemma_contains(names: Seq<Seq<char>>, name: Seq<char>)
    ensures
        last_named(names, name) is Some <==> names.contains(name),
        last_named(names, name) matches Some(k) ==> is_last(names, k) && names[k] == name,
{
    lemma_last_named(names, name);
    if names.contains(name) {
        let j = choose|j: int| 0 <= j < names.len() && names[j] == name;
    }
}

proof fn lemma_grouped(
    usb: Seq<Seq<char>>,
    bt: Seq<Seq<char>>,
    ble: Seq<Seq<char>>,
    i: int,
)
    requires
        0 <= i < grouped(usb, bt, ble).len(),
    ensures
        ({
            let g = grouped(usb, bt, ble)[i];
            &&& is_household_group(g, usb, bt, ble)
            &&& g.usb matches Some(u) ==> usb[u] == g.name
        }),
{
    let name = all_names(usb, bt, ble)[i];
    names_are_listed_once(usb, bt, ble, name);
    assert(all_names(usb, bt, ble).contains(name));
    lemma_contains(usb, name);
    lemma_contains(bt, name);
    lemma_contains(ble, name);
}

proof fn lemma_distinct(
    usb: Seq<Seq<char>>,
    bt: Seq<Seq<char>>,
    ble: Seq<Seq<char>>,
    i: int,
    j: int,
)
    requires
        0 <= i < j < grouped(usb, bt, ble).len(),
    ensures
        precedes(grouped(usb, bt, ble)[i].name, grouped(usb, bt, ble)[j].name),
{
    names_are_listed_once(usb, bt, ble, Seq::empty());
}

proof fn lemma_sole_alone(groups: Seq<GroupView>, wire: Wire)
    ensures
        -2 <= sole(groups, wire) < groups.len(),
        sole(groups, wire) >= 0 ==> found_only_on(
            groups[sole(groups, wire)],
            wire,
        ) && forall|j: int|
            0 <= j < groups.len() && j != sole(groups, wire)
                ==> !found_only_on(#[trigger] groups[j], wire),
        sole(groups, wire) == -1 ==> forall|j: int|
            0 <= j < groups.len() ==> !found_only_on(#[trigger] groups[j], wire),
        sole(groups, wire) == -2 ==> exists|a: int, b: int|
            0 <= a < b < groups.len() && found_only_on(#[trigger] groups[a], wire)
                && found_only_on(#[trigger] groups[b], wire),
    decreases groups.len(),
{
    if groups.len() > 0 {
        let front = groups.drop_last();
        lemma_sole_alone(front, wire);
        let n = groups.len() - 1;
        assert forall|j: int| 0 <= j < n implies front[j] == groups[j] by {}
        if sole(front, wire) == -2 {
            let (a, b) = choose|a: int, b: int|
                0 <= a < b < front.len() && found_only_on(
                    #[trigger] front[a],
                    wire,
                ) && found_only_on(#[trigger] front[b], wire);
            assert(groups[a] == front[a] && groups[b] == front[b]);
        } else if sole(front, wire) >= 0 && found_only_on(groups.last(), wire) {
            let a = sole(front, wire);
            assert(groups[a] == front[a] && groups[n] == groups.last());
        }
    }
}

/// A name is found on one wire alone exactly where its group is.
proof fn lemma_alone(
    usb: Seq<Seq<char>>,
    bt: Seq<Seq<char>>,
    ble: Seq<Seq<char>>,
    i: int,
    wire: Wire,
)
    requires
        sole(grouped(usb, bt, ble), wire) == i,
        i >= 0,
    ensures
        0 <= i < grouped(usb, bt, ble).len(),
        wire is Usb ==> alone_in(grouped(usb, bt, ble)[i].name, usb, bt, ble),
        wire is Bluetooth ==> alone_in(grouped(usb, bt, ble)[i].name, bt, usb, ble),
{
    let groups = grouped(usb, bt, ble);
    let names = all_names(usb, bt, ble);
    lemma_sole_alone(groups, wire);
    lemma_grouped(usb, bt, ble, i);
    let g = groups[i];
    if wire is Usb {
        assert(usb.contains(g.name)) by {
            assert(usb[g.usb.unwrap()] == g.name);
        }
        assert forall|n: Seq<char>| #[trigger] only_in(n, usb, bt, ble) implies n == g.name by {
            names_are_listed_once(usb, bt, ble, n);
            let j = choose|j: int| 0 <= j < names.len() && names[j] == n;
            lemma_grouped(usb, bt, ble, j);
            assert(groups[j].name == n);
            lemma_contains(usb, n);
            lemma_contains(bt, n);
            lemma_contains(ble, n);
            assert(found_only_on(groups[j], wire));
        }
    } else {
        assert(bt.contains(g.name)) by {
            assert(bt[g.bt.unwrap()] == g.name);
        }
        assert forall|n: Seq<char>| #[trigger] only_in(n, bt, usb, ble) implies n == g.name by {
            names_are_listed_once(usb, bt, ble, n);
            let j = choose|j: int| 0 <= j < names.len() && names[j] == n;
            lemma_grouped(usb, bt, ble, j);
            assert(groups[j].name == n);
            lemma_contains(usb, n);
            lemma_contains(bt, n);
            lemma_contains(ble, n);
            assert(found_only_on(groups[j], wire));
        }
    }
}

/// The groups are those of a household: each one as it should be, in dictionary
/// order, and every candidate that is the last of its name in one of them.
pub open spec fn is_household(
    groups: Seq<GroupView>,
    usb: Seq<Seq<char>>,
    bt: Seq<Seq<char>>,
    ble: Seq<Seq<char>>,
) -> bool {
    &&& forall|i: int|
        0 <= i < groups.len() ==> is_household_group(#[trigger] groups[i], usb, bt, ble)
    &&& forall|i: int, j: int|
        0 <= i < j < groups.len() ==> precedes(
            (#[trigger] groups[i]).name,
            (#[trigger] groups[j]).name,
        )
    &&& forall|u: int|
        #[trigger] is_last(usb, u) ==> exists|i: int|
            0 <= i < groups.len() && (#[trigger] groups[i]).usb == Some(u)
    &&& forall|b: int|
        #[trigger] is_last(bt, b) ==> exists|i: int|
            0 <= i < groups.len() && (#[trigger] groups[i]).bt == Some(b) && groups[i].name == bt[b]
    &&& forall|e: int|
        #[trigger] is_last(ble, e) ==> exists|i: int|
            0 <= i < groups.len() && (#[trigger] groups[i]).ble == Some(e) && groups[i].name
                == ble[e]
}

/// The last candidate of a name is the one that the name's group holds.
proof fn lemma_held(names: Seq<Seq<char>>, k: int)
    requires
        is_last(names, k),
    ensures
        last_named(names, names[k]) == Some(k),
        names.contains(names[k]),
{
    assert(names.contains(names[k]));
    lemma_contains(names, names[k]);
    let m = last_named(names, names[k]).unwrap();
    if m < k {
        assert(names[k] != names[m]);
    }
}

proof fn lemma_group_of(
    usb: Seq<Seq<char>>,
    bt: Seq<Seq<char>>,
    ble: Seq<Seq<char>>,
    n: Seq<char>,
) -> (i: int)
    requires
        usb.contains(n) || bt.contains(n) || ble.contains(n),
    ensures
        0 <= i < grouped(usb, bt, ble).len(),
        grouped(usb, bt, ble)[i] == (GroupView {
            name: n,
            usb: last_named(usb, n),
            bt: last_named(bt, n),
            ble: last_named(ble, n),
        }),
{
    names_are_listed_once(usb, bt, ble, n);
    let names = all_names(usb, bt, ble);
    let i = choose|i: int| 0 <= i < names.len() && names[i] == n;
    i
}

proof fn lemma_household(usb: Seq<Seq<char>>, bt: Seq<Seq<char>>, ble: Seq<Seq<char>>)
    ensures
        is_household(merged(grouped(usb, bt, ble)), usb, bt, ble),
{
    let groups = grouped(usb, bt, ble);
    let out = merged(groups);
    let u = sole(groups, Wire::Usb);
    let b = sole(groups, Wire::Bluetooth);
    lemma_sole_alone(groups, Wire::Usb);
    lemma_sole_alone(groups, Wire::Bluetooth);
    let joins = u >= 0 && b >= 0;
    if joins {
        lemma_alone(usb, bt, ble, u, Wire::Usb);
        lemma_alone(usb, bt, ble, b, Wire::Bluetooth);
        lemma_grouped(usb, bt, ble, u);
        lemma_grouped(usb, bt, ble, b);
        assert(u != b);
    }
    // where group k is found again
    let moved = |k: int|
        if !joins {
            k
        } else if k == u {
            if b < u {
                b
            } else {
                b - 1
            }
        } else if k < u {
            k
        } else {
            k - 1
        };
    assert forall|i: int| 0 <= i < out.len() implies is_household_group(
        #[trigger] out[i],
        usb,
        bt,
        ble,
    ) by {
        let o = if joins && i >= u {
            i + 1
        } else {
            i
        };
        lemma_grouped(usb, bt, ble, o);
    }
    assert forall|i: int, j: int| 0 <= i < j < out.len() implies precedes(
        (#[trigger] out[i]).name,
        (#[trigger] out[j]).name,
    ) by {
        let oi = if joins && i >= u {
            i + 1
        } else {
            i
        };
        let oj = if joins && j >= u {
            j + 1
        } else {
            j
        };
        lemma_distinct(usb, bt, ble, oi, oj);
        assert(out[i].name == groups[oi].name);
        assert(out[j].name == groups[oj].name);
    }
    assert forall|k: int| #[trigger] is_last(usb, k) implies exists|i: int|
        0 <= i < out.len() && (#[trigger] out[i]).usb == Some(k) by {
        lemma_held(usb, k);
        let o = lemma_group_of(usb, bt, ble, usb[k]);
        let i = moved(o);
        assert(out[i].usb == Some(k));
    }
    assert forall|k: int| #[trigger] is_last(bt, k) implies exists|i: int|
        0 <= i < out.len() && (#[trigger] out[i]).bt == Some(k) && out[i].name == bt[k] by {
        lemma_held(bt, k);
        let o = lemma_group_of(usb, bt, ble, bt[k]);
        let i = moved(o);
        assert(!(joins && o == u));
        assert(out[i].bt == Some(k) && out[i].name == bt[k]);
    }
    assert forall|k: int| #[trigger] is_last(ble, k) implies exists|i: int|
        0 <= i < out.len() && (#[trigger] out[i]).ble == Some(k) && out[i].name == ble[k] by {
        lemma_held(ble, k);
        let o = lemma_group_of(usb, bt, ble, ble[k]);
        let i = moved(o);
        assert(!(joins && o == u));
        assert(out[i].ble == Some(k) && out[i].name == ble[k]);
    }
}

/// The slug keeps the letters and digits of the name, and is `printer` where it
/// has none.
pub open spec fn keeps_the_word(slug: Seq<char>, name: Seq<char>) -> bool {
    if word_chars(name).len() > 0 {
        word_chars(slug) == word_chars(name)
    } else {
        slug == "printer"@
    }
}

/// What is shown of a printer of this model and name.
pub open spec fn shows(d: FoundPrinter, model: Seq<char>, name: Seq<char>) -> bool {
    &&& d.info@ == "Supvan "@ + model + " "@ + name
    &&& d.device_id@ == "MFG:Supvan;MDL:"@ + model + ";CMD:SUPVAN;"@
}

/// The report of a group: each transport's address is that of the group's own
/// candidate there, the model is what USB says, or else what the name stands
/// for, and what is shown ends in the group's name.
pub open spec fn reports_group(
    reg: &Registry,
    d: FoundPrinter,
    g: GroupView,
    usb: Seq<UsbCandidate>,
    bt: Seq<BtCandidate>,
    ble: Seq<BleCandidate>,
) -> bool {
    &&& match g.usb {
        Some(u) => d.hidraw_path matches Some(p) && p@ == usb[u].hidraw_path@ && shows(
            d,
            usb[u].model_name@,
            g.name,
        ),
        None => d.hidraw_path is None,
    }
    &&& match g.bt {
        Some(b) => d.bt_address matches Some(a) && a@ == bt[b].address@,
        None => d.bt_address is None,
    }
    &&& match g.ble {
        Some(e) => d.ble_address matches Some(a) && a@ == ble[e].address@,
        None => d.ble_address is None,
    }
    &&& g.usb is None ==> forall|name: &str, model: Option<&str>|
        name@ == g.name && #[trigger] call_ensures(bt_model_for_name, (reg, name), model)
            ==> match model {
            Some(m) => shows(d, m@, g.name),
            None => shows(
                d,
                if g.bt is Some {
                    "T50 Series"@
                } else {
                    "E-Series"@
                },
                g.name,
            ),
        }
    &&& d.uri@ == "supvan://"@ + d.slug@
    &&& keeps_the_word(d.slug@, g.name)
}

/// The printers of a household: every candidate is reported, those of one name
/// together, and a printer on USB alone with one on Bluetooth alone only where
/// there is one of each.
pub proof fn households_are_reported_whole(
    reg: &Registry,
    usb: &[UsbCandidate],
    bt: &[BtCandidate],
    ble: &[BleCandidate],
    r: Vec<FoundPrinter>,
)
    requires
        call_ensures(group_candidates, (reg, usb, bt, ble), r),
    ensures
        exists|groups: Seq<GroupView>|
            {
                &&& #[trigger] is_household(
                    groups,
                    usb_names(usb@),
                    bt_names(bt@),
                    ble_names(ble@),
                )
                &&& groups.len() == r@.len()
                &&& forall|i: int|
                    0 <= i < r@.len() ==> reports_group(
                        reg,
                        #[trigger] r@[i],
                        groups[i],
                        usb@,
                        bt@,
                        ble@,
                    )
            },
{
    assert(keys(usb@) =~= usb_names(usb@));
    assert(keys(bt@) =~= bt_names(bt@));
    assert(keys(ble@) =~= ble_names(ble@));
    lemma_household(usb_names(usb@), bt_names(bt@), ble_names(ble@));
    let groups = reported(usb@, bt@, ble@);
    assert(is_household(groups, usb_names(usb@), bt_names(bt@), ble_names(ble@)));
    assert forall|i: int| 0 <= i < r@.len() implies reports_group(
        reg,
        #[trigger] r@[i],
        groups[i],
        usb@,
        bt@,
        ble@,
    ) by {
        let g = groups[i];
        assert(is_household_group(g, usb_names(usb@), bt_names(bt@), ble_names(ble@)));
        lemma_word_chars(g.name);
    }
}

/// The texts agree up to place `k`, where the first one ends or has the lesser
/// character.
pub open spec fn parts_before(a: Seq<char>, b: Seq<char>, k: int) -> bool {
    &&& 0 <= k <= a.len()
    &&& k < b.len()
    &&& forall|i: int| 0 <= i < k ==> #[trigger] a[i] == b[i]
    &&& k == a.len() || a[k] < b[k]
}

/// Names come in the order of a dictionary: by the first character in which they
/// differ, a name before those that it begins.
pub proof fn reports_come_as_in_a_dictionary(a: Seq<char>, b: Seq<char>)
    ensures
        precedes(a, b) <==> exists|k: int| #[trigger] parts_before(a, b, k),
    decreases a.len(),
{
    if a.len() > 0 && b.len() > 0 && a[0] == b[0] {
        let x = a.drop_first();
        let y = b.drop_first();
        reports_come_as_in_a_dictionary(x, y);
        if precedes(x, y) {
            let k = choose|k: int| #[trigger] parts_before(x, y, k);
            assert forall|i: int| 0 <= i < k + 1 implies #[trigger] a[i] == b[i] by {
                if i > 0 {
                    assert(x[i - 1] == y[i - 1]);
                }
            }
            assert(parts_before(a, b, k + 1));
        }
        if exists|k: int| #[trigger] parts_before(a, b, k) {
            let k = choose|k: int| #[trigger] parts_before(a, b, k);
            assert forall|i: int| 0 <= i < k - 1 implies #[trigger] x[i] == y[i] by {
                assert(a[i + 1] == b[i + 1]);
            }
            assert(parts_before(x, y, k - 1));
        }
    } else if precedes(a, b) {
        assert(parts_before(a, b, 0));
    } else if exists|k: int| #[trigger] parts_before(a, b, k) {
        let k = choose|k: int| #[trigger] parts_before(a, b, k);
        if k > 0 {
            assert(a[0] == b[0]);
        }
    }
}

// ---------------------------------------------------------------------------
// Slugs
// ---------------------------------------------------------------------------

/// A letter or digit of the Latin alphabet.
pub open spec fn is_word_char(c: char) -> bool {
    ('0' <= c && c <= '9') || ('A' <= c && c <= 'Z') || ('a' <= c && c <= 'z')
}

/// The letters and digits of a text, in order, in lower case.
pub open spec fn word_chars(s: Seq<char>) -> Seq<char>
    decreases s.len(),
{
    if s.len() == 0 {
        Seq::empty()
    } else if is_word_char(s.last()) {
        word_chars(s.drop_last()).push(
            if 'A' <= s.last() && s.last() <= 'Z' {
                (s.last() as u32 + 32) as char
            } else {
                s.last()
            },
        )
    } else {
        word_chars(s.drop_last())
    }
}

proof fn lemma_word_push(s: Seq<char>, c: char)
    requires
        c == '-' || (is_word_char(c) && !('A' <= c && c <= 'Z')),
    ensures
        word_chars(s.push(c)) == if c == '-' {
            word_chars(s)
        } else {
            word_chars(s).push(c)
        },
{
    assert(s.push(c).drop_last() =~= s);
}

proof fn lemma_word_chars(s: Seq<char>)
    ensures
        word_chars(hyphenated(s)) == word_chars(s),
        word_chars(s).len() > 0 <==> hyphenated(s).len() > 0,
    decreases s.len(),
{
    if s.len() > 0 {
        lemma_word_chars(s.drop_last());
        let front = hyphenated(s.drop_last());
        let c = s.last();
        if is_word_char(c) {
            let l = ascii_lower(c);
            assert(is_word_char(l) && !('A' <= l && l <= 'Z'));
            lemma_word_push(front, l);
            lemma_word_push(front, '-');
            lemma_word_push(front.push('-'), l);
        }
    }
}

/// A slug keeps the letters and digits of the name, in order and in lower case,
/// and is `printer` for a name that has none.
pub proof fn slugs_keep_letters_and_digits(name: &str, r: String)
    requires
        call_ensures(slug, (name,), r),
    ensures
        keeps_the_word(r@, name@),
        forall|i: int| 0 <= i < r@.len() ==> #[trigger] r@[i] == '-' || is_word_char(r@[i]),
{
    lemma_word_chars(name@);
    slugs_are_queue_names(name@);
}

proof fn lemma_no_words(s: Seq<char>)
    requires
        hyphenated(s).len() == 0,
    ensures
        forall|i: int| 0 <= i < s.len() ==> !is_word_char(#[trigger] s[i]),
    decreases s.len(),
{
    if s.len() > 0 {
        lemma_no_words(s.drop_last());
        assert forall|i: int| 0 <= i < s.len() implies !is_word_char(#[trigger] s[i]) by {
            if i < s.len() - 1 {
                assert(s.drop_last()[i] == s[i]);
            }
        }
    }
}

proof fn lemma_parted(a: Seq<char>, c: char, b: Seq<char>)
    requires
        !is_word_char(c),
        hyphenated(a).len() > 0,
    ensures
        hyphenated(a.push(c) + b) == if hyphenated(b).len() == 0 {
            hyphenated(a)
        } else {
            hyphenated(a).push('-') + hyphenated(b)
        },
    decreases b.len(),
{
    let s = a.push(c) + b;
    if b.len() == 0 {
        assert(s.drop_last() =~= a);
        assert(s.last() == c);
    } else {
        let front = b.drop_last();
        lemma_parted(a, c, front);
        assert(s.drop_last() =~= a.push(c) + front);
        assert(s.last() == b.last());
        if hyphenated(front).len() == 0 {
            lemma_no_words(front);
            if b.len() > 1 {
                assert(front[b.len() - 2] == s[s.len() - 2]);
            } else {
                assert(s[s.len() - 2] == c);
            }
        } else {
            assert(b.len() > 1);
            assert(b[b.len() - 2] == s[s.len() - 2]);
        }
    }
}

proof fn lemma_one_word(s: Seq<char>)
    requires
        forall|i: int| 0 <= i < s.len() ==> is_word_char(#[trigger] s[i]),
    ensures
        hyphenated(s).len() == s.len(),
        !hyphenated(s).contains('-'),
    decreases s.len(),
{
    if s.len() > 0 {
        assert(is_word_char(s.last()));
        assert forall|i: int| 0 <= i < s.drop_last().len() implies is_word_char(
            #[trigger] s.drop_last()[i],
        ) by {
            assert(is_word_char(s[i]));
        }
        lemma_one_word(s.drop_last());
        if s.len() > 1 {
            assert(is_word_char(s[s.len() - 2]));
        }
        let front = hyphenated(s.drop_last());
        let h = hyphenated(s);
        assert forall|i: int| 0 <= i < h.len() implies h[i] != '-' by {
            if i < front.len() {
                assert(h[i] == front[i]);
                assert(front.contains(front[i]));
            }
        }
    }
}

/// Words are joined by one hyphen, whatever stands between them, and are not cut
/// apart.
pub proof fn slugs_join_words_by_a_hyphen(
    a: &str,
    c: char,
    b: &str,
    whole: &str,
    ra: String,
    rb: String,
    r: String,
)
    requires
        call_ensures(slug, (a,), ra),
        call_ensures(slug, (b,), rb),
        call_ensures(slug, (whole,), r),
        whole@ == a@.push(c) + b@,
        !is_word_char(c),
        word_chars(a@).len() > 0,
        word_chars(b@).len() > 0,
    ensures
        r@ == ra@.push('-') + rb@,
        (forall|i: int| 0 <= i < a@.len() ==> is_word_char(#[trigger] a@[i])) ==> !ra@.contains(
            '-',
        ),
{
    lemma_word_chars(a@);
    lemma_word_chars(b@);
    lemma_parted(a@, c, b@);
    if forall|i: int| 0 <= i < a@.len() ==> is_word_char(#[trigger] a@[i]) {
        lemma_one_word(a@);
    }
}

// ---------------------------------------------------------------------------
// BLE
// ---------------------------------------------------------------------------

/// The advertiser prints over BLE: it advertises one of the three print services,
/// its address is in the assigned block, and its name looks like a serial.
pub open spec fn prints_over_ble(a: Advert) -> bool {
    &&& exists|s: int|
        0 <= s < a.services@.len() && (#[trigger] a.services@[s]
            == 0x0000_fee7_0000_1000_8000_0080_5f9b_34fb || a.services@[s]
            == 0x0000_e0ff_0000_1000_8000_0080_5f9b_34fb || a.services@[s]
            == 0x0000_ff00_0000_1000_8000_0080_5f9b_34fb)
    &&& in_assigned_block(a.address@)
    &&& a.name matches Some(n) && looks_like_a_serial(n@)
}

/// A print service is one of the three numbers.
pub proof fn print_services_are_three(uuid: u128, r: bool)
    requires
        call_ensures(is_print_service, (uuid,), r),
    ensures
        r <==> (uuid == 0x0000_fee7_0000_1000_8000_0080_5f9b_34fb || uuid
            == 0x0000_e0ff_0000_1000_8000_0080_5f9b_34fb || uuid
            == 0x0000_ff00_0000_1000_8000_0080_5f9b_34fb),
{
}

proof fn lemma_assigned(addr: Seq<char>)
    ensures
        has_supvan_oui(addr) == in_assigned_block(addr),
{
    reveal_strlit("A4:93:40");
    if addr.len() >= 8 {
        let x = ascii_lowered(addr.take(8));
        let y = ascii_lowered("A4:93:40"@);
        assert(y =~= seq!['a', '4', ':', '9', '3', ':', '4', '0']);
        assert(x.len() == 8);
        assert(x =~= y <==> (x[0] == 'a' && x[1] == '4' && x[2] == ':' && x[3] == '9' && x[4] == '3'
            && x[5] == ':' && x[6] == '4' && x[7] == '0'));
    }
}

/// A device is taken for a BLE printer by its address and its name together.
pub proof fn ble_printers_have_block_and_serial(addr: &str, name: &str, r: bool)
    requires
        call_ensures(is_supvan_ble, (addr, name), r),
    ensures
        r <==> in_assigned_block(addr@) && looks_like_a_serial(name@),
{
    lemma_assigned(addr@);
}

proof fn lemma_ble(a: Advert)
    ensures
        is_ble_printer(a) == prints_over_ble(a),
{
    lemma_assigned(a.address@);
    if prints_over_ble(a) {
        let s = choose|s: int|
            0 <= s < a.services@.len() && (#[trigger] a.services@[s]
                == 0x0000_fee7_0000_1000_8000_0080_5f9b_34fb || a.services@[s]
                == 0x0000_e0ff_0000_1000_8000_0080_5f9b_34fb || a.services@[s]
                == 0x0000_ff00_0000_1000_8000_0080_5f9b_34fb);
        assert(is_print_service_number(a.services@[s] as int));
    }
}

/// The advertisers that print over BLE are listed and no others, each with its
/// own address and name, in the order of the scan.
pub open spec fn lists_printers(adverts: Seq<Advert>, r: Seq<(Seq<char>, Seq<char>)>) -> bool
    decreases adverts.len(),
{
    if adverts.len() == 0 {
        r.len() == 0
    } else if prints_over_ble(adverts.last()) {
        &&& r.len() > 0
        &&& r.last().0 == adverts.last().address@
        &&& adverts.last().name matches Some(n) && r.last().1 == n@
        &&& lists_printers(adverts.drop_last(), r.drop_last())
    } else {
        lists_printers(adverts.drop_last(), r)
    }
}

proof fn lemma_lists(adverts: Seq<Advert>)
    ensures
        lists_printers(adverts, ble_printers(adverts)),
    decreases adverts.len(),
{
    if adverts.len() > 0 {
        lemma_lists(adverts.drop_last());
        lemma_ble(adverts.last());
        let front = ble_printers(adverts.drop_last());
        if prints_over_ble(adverts.last()) {
            let all = ble_printers(adverts);
            assert(all.drop_last() =~= front);
        }
    }
}

/// A scan lists exactly the advertisers that print over BLE.
pub proof fn scans_list_what_prints_over_ble(adverts: &[Advert], r: Vec<BleCandidate>)
    requires
        call_ensures(list_candidates, (adverts,), r),
    ensures
        lists_printers(adverts@, Seq::new(r@.len(), |i: int| (r@[i].address@, r@[i].name@))),
{
    lemma_lists(adverts@);
    assert(Seq::new(r@.len(), |i: int| (r@[i].address@, r@[i].name@))
        =~= ble_pairs(r@));
}

} // verus!

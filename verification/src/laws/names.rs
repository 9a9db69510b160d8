//! Names: which model, family and printer a name stands for.

use crate::models::{
    bt_model_for_name, build_registry, byte_len, entries, entries_of, family_for_model_hint,
    family_names, find_toml_path, first_match, first_orphan_model, first_orphan_name, has_len,
    identified, is_matching_bt_device, is_matching_bt_name, is_registry_of, last_named,
    lemma_first_match, listed_entries, load, model_by_pid, parse_mdl, table_fault, BtNameToml,
    DriverFamily, ModelsToml, PrefixEntry, Registry, UsbModel,
};
use crate::text::{ascii_lowered, lowercase, occurs_in, same_ignoring_ascii_case};
use vstd::prelude::*;
use vstd::utf8::encode_utf8;

verus! {

/// Prefix `j` of entry `i` of the table, lowercased.
pub open spec fn listed_prefix(t: ModelsToml, i: int, j: int) -> Seq<char> {
    lowercase(t.bt_names@[i].prefixes@[j]@)
}

/// The table lists a prefix `j` in entry `i`, and the name starts with it, in
/// whatever letter case.
pub open spec fn lists_prefix_of(t: ModelsToml, name: Seq<char>, i: int, j: int) -> bool {
    &&& 0 <= i < t.bt_names@.len()
    &&& 0 <= j < t.bt_names@[i].prefixes@.len()
    &&& listed_prefix(t, i, j).is_prefix_of(lowercase(name))
}

/// No prefix that the table lists and the name starts with is longer, in bytes.
pub open spec fn is_longest(t: ModelsToml, name: Seq<char>, i: int, j: int) -> bool {
    &&& lists_prefix_of(t, name, i, j)
    &&& forall|k: int, l: int| #[trigger]
        lists_prefix_of(t, name, k, l) ==> encode_utf8(listed_prefix(t, k, l)).len() <= encode_utf8(
            listed_prefix(t, i, j),
        ).len()
}

proof fn lemma_in_filter(list: Seq<PrefixEntry>, pred: spec_fn(PrefixEntry) -> bool, k: int)
    requires
        0 <= k < list.filter(pred).len(),
    ensures
        list.contains(list.filter(pred)[k]),
    decreases list.len(),
{
    reveal(Seq::filter);
    if list.len() > 0 {
        let front = list.drop_last();
        let e = list.filter(pred)[k];
        if k < front.filter(pred).len() {
            lemma_in_filter(front, pred, k);
            let i = choose|i: int| 0 <= i < front.len() && front[i] == e;
            assert(list[i] == e);
        } else {
            assert(list[list.len() - 1] == e);
        }
    }
}

proof fn lemma_same_entries(a: Seq<PrefixEntry>, b: Seq<PrefixEntry>, e: PrefixEntry)
    requires
        forall|n: nat| #[trigger] a.filter(has_len(n)) == b.filter(has_len(n)),
        a.contains(e),
    ensures
        b.contains(e),
{
    let n = byte_len(e);
    let i = choose|i: int| 0 <= i < a.len() && a[i] == e;
    a.lemma_filter_contains(has_len(n), i);
    assert(a.filter(has_len(n)) == b.filter(has_len(n)));
    let k = choose|k: int| 0 <= k < b.filter(has_len(n)).len() && b.filter(has_len(n))[k] == e;
    lemma_in_filter(b, has_len(n), k);
}

proof fn lemma_listed(list: Seq<BtNameToml>, names: Seq<Seq<char>>, i: int, j: int)
    requires
        0 <= i < list.len(),
        0 <= j < list[i].prefixes@.len(),
    ensures
        listed_entries(list, names).contains(
            PrefixEntry {
                prefix: lowercase(list[i].prefixes@[j]@),
                model: list[i].model@,
                family: last_named(names, list[i].family@).unwrap(),
            },
        ),
    decreases list.len(),
{
    let front = listed_entries(list.drop_last(), names);
    let mine = entries_of(list.last(), last_named(names, list.last().family@).unwrap());
    let all = listed_entries(list, names);
    assert(all == front + mine);
    let e = PrefixEntry {
        prefix: lowercase(list[i].prefixes@[j]@),
        model: list[i].model@,
        family: last_named(names, list[i].family@).unwrap(),
    };
    if i < list.len() - 1 {
        lemma_listed(list.drop_last(), names, i, j);
        let k = choose|k: int| 0 <= k < front.len() && front[k] == e;
        assert(all[k] == e);
    } else {
        assert(mine[j] == e);
        assert(all[front.len() + j] == e);
    }
}

/// An entry of the list comes from a prefix of the table.
spec fn comes_from(
    list: Seq<BtNameToml>,
    names: Seq<Seq<char>>,
    e: PrefixEntry,
    i: int,
    j: int,
) -> bool {
    &&& 0 <= i < list.len()
    &&& 0 <= j < list[i].prefixes@.len()
    &&& e.prefix == lowercase(list[i].prefixes@[j]@)
    &&& e.model == list[i].model@
    &&& e.family == last_named(names, list[i].family@).unwrap()
}

proof fn lemma_origin(list: Seq<BtNameToml>, names: Seq<Seq<char>>, k: int) -> (r: (int, int))
    requires
        0 <= k < listed_entries(list, names).len(),
    ensures
        comes_from(list, names, listed_entries(list, names)[k], r.0, r.1),
    decreases list.len(),
{
    let front = listed_entries(list.drop_last(), names);
    if k < front.len() {
        lemma_origin(list.drop_last(), names, k)
    } else {
        (list.len() - 1, k - front.len())
    }
}

/// The entry that identifies a name is one of the longest prefixes of the table
/// that it starts with; where it has none, nothing identifies it.
proof fn lemma_identified(t: ModelsToml, reg: Registry, name: Seq<char>) -> (r: (int, int))
    requires
        is_registry_of(reg, t),
        reg.wf(),
    ensures
        match identified(reg, lowercase(name)) {
            Some(e) => comes_from(t.bt_names@, family_names(t.families@), e, r.0, r.1) && is_longest(
                t,
                name,
                r.0,
                r.1,
            ),
            None => forall|i: int, j: int| !#[trigger] lists_prefix_of(t, name, i, j),
        },
{
    let names = family_names(t.families@);
    let list = t.bt_names@;
    let out = entries(reg.bt_prefixes@);
    let listed = listed_entries(list, names);
    let lower = lowercase(name);
    let k = first_match(out, lower, 0);
    lemma_first_match(out, lower, 0);
    assert forall|i: int, j: int| #[trigger] lists_prefix_of(t, name, i, j) implies k < out.len()
        && byte_len(out[k]) >= encode_utf8(listed_prefix(t, i, j)).len() by {
        lemma_listed(list, names, i, j);
        let e = PrefixEntry {
            prefix: lowercase(list[i].prefixes@[j]@),
            model: list[i].model@,
            family: last_named(names, list[i].family@).unwrap(),
        };
        lemma_same_entries(listed, out, e);
        let m = choose|m: int| 0 <= m < out.len() && out[m] == e;
        assert(out[m].prefix.is_prefix_of(lower));
        assert(k <= m);
        if k < m {
            assert(byte_len(out[k]) >= byte_len(out[m]));
        }
    }
    if k < out.len() {
        assert(out.contains(out[k]));
        lemma_same_entries(out, listed, out[k]);
        let m = choose|m: int| 0 <= m < listed.len() && listed[m] == out[k];
        let r = lemma_origin(list, names, m);
        assert(lists_prefix_of(t, name, r.0, r.1));
        r
    } else {
        (0, 0)
    }
}

/// A name has the model of the longest prefix of the table that it starts with,
/// letter case aside, and no model exactly where it starts with none.
pub proof fn the_longest_listed_prefix_gives_the_model(
    t: &ModelsToml,
    source: &str,
    reg: Registry,
    name: &str,
    model: Option<&str>,
)
    requires
        call_ensures(build_registry, (t, source), Ok::<Registry, String>(reg)),
        call_ensures(bt_model_for_name, (&reg, name), model),
    ensures
        match model {
            Some(m) => exists|i: int, j: int| #[trigger]
                is_longest(*t, name@, i, j) && m@ == t.bt_names@[i].model@,
            None => forall|i: int, j: int| !#[trigger] lists_prefix_of(*t, name@, i, j),
        },
{
    let (i, j) = lemma_identified(*t, reg, name@);
    if model is Some {
        assert(is_longest(*t, name@, i, j));
    }
}

pub proof fn lemma_last_named(names: Seq<Seq<char>>, name: Seq<char>)
    ensures
        match last_named(names, name) {
            Some(k) => 0 <= k < names.len() && names[k] == name && forall|j: int|
                k < j < names.len() ==> names[j] != name,
            None => forall|j: int| 0 <= j < names.len() ==> names[j] != name,
        },
    decreases names.len(),
{
    if names.len() > 0 && names.last() != name {
        lemma_last_named(names.drop_last(), name);
        let front = names.drop_last();
        assert forall|j: int| 0 <= j < front.len() implies front[j] == names[j] by {}
    }
}

proof fn lemma_no_orphans(list: Seq<BtNameToml>, names: Seq<Seq<char>>, from: int, i: int)
    requires
        0 <= from <= i < list.len(),
        first_orphan_name(list, names, from) == list.len(),
    ensures
        last_named(names, list[i].family@) is Some,
    decreases list.len() - from,
{
    if from < i {
        lemma_no_orphans(list, names, from + 1, i);
    }
}

/// A name has the driver family that the table lists its longest prefix under,
/// and the family called `supvan_t50` where it starts with no listed prefix.
pub proof fn the_longest_listed_prefix_gives_the_family(
    t: &ModelsToml,
    source: &str,
    reg: Registry,
    name: &str,
    family: &DriverFamily,
)
    requires
        call_ensures(build_registry, (t, source), Ok::<Registry, String>(reg)),
        call_ensures(family_for_model_hint, (&reg, name), family),
    ensures
        family.driver_name@ == "supvan_t50"@ && (forall|i: int, j: int| !#[trigger]
            lists_prefix_of(*t, name@, i, j)) || exists|i: int, j: int| #[trigger]
            is_longest(*t, name@, i, j) && family.driver_name@ == t.bt_names@[i].family@,
{
    let names = family_names(t.families@);
    let (i, j) = lemma_identified(*t, reg, name@);
    lemma_last_named(names, "supvan_t50"@);
    assert(table_fault(*t, source@) is None);
    match identified(reg, lowercase(name@)) {
        Some(e) => {
            lemma_orphan_bound(t.bt_names@, names, 0);
            lemma_no_orphans(t.bt_names@, names, 0, i);
            lemma_last_named(names, t.bt_names@[i].family@);
            assert(names[e.family] == t.families@[e.family].name@);
            assert(is_longest(*t, name@, i, j));
        },
        None => {
            assert(names[reg.default_family_idx as int]
                == t.families@[reg.default_family_idx as int].name@);
        },
    }
}

proof fn lemma_orphan_bound(list: Seq<BtNameToml>, names: Seq<Seq<char>>, from: int)
    requires
        0 <= from <= list.len(),
    ensures
        first_orphan_name(list, names, from) <= list.len(),
    decreases list.len() - from,
{
    if from < list.len() {
        lemma_orphan_bound(list, names, from + 1);
    }
}

/// The families of the registry are those of the table, in order: name,
/// resolution and head as listed, and for each size its width and length in
/// hundredths of a millimetre.
pub proof fn families_are_those_of_the_table(
    t: &ModelsToml,
    source: &str,
    reg: Registry,
    f: int,
    s: int,
)
    requires
        call_ensures(build_registry, (t, source), Ok::<Registry, String>(reg)),
        0 <= f < t.families@.len(),
        0 <= s < t.families@[f].media_mm@.len(),
    ensures
        reg.families@.len() == t.families@.len(),
        reg.families@[f].driver_name@ == t.families@[f].name@,
        reg.families@[f].dpi == t.families@[f].dpi,
        reg.families@[f].printhead_width_dots == t.families@[f].printhead_dots,
        reg.families@[f].media_sizes@[s]@[0] == 100 * t.families@[f].media_mm@[s]@[0],
        reg.families@[f].media_sizes@[s]@[1] == 100 * t.families@[f].media_mm@[s]@[1],
{
    assert(crate::models::is_family_of(reg.families@[f], t.families@[f]));
    assert(reg.families@[f].media_sizes@[s]@[0] == t.families@[f].media_mm@[s]@[0] * 100);
}

/// The table lists a family of the name.
pub open spec fn lists_family(t: ModelsToml, name: Seq<char>) -> bool {
    exists|f: int| 0 <= f < t.families@.len() && (#[trigger] t.families@[f]).name@ == name
}

proof fn lemma_lists_family(t: ModelsToml, name: Seq<char>)
    ensures
        last_named(family_names(t.families@), name) is Some <==> lists_family(t, name),
{
    let names = family_names(t.families@);
    lemma_last_named(names, name);
    if lists_family(t, name) {
        let f = choose|f: int|
            0 <= f < t.families@.len() && (#[trigger] t.families@[f]).name@ == name;
        assert(names[f] == name);
    }
    if last_named(names, name) is Some {
        let f = last_named(names, name).unwrap();
        assert(t.families@[f].name@ == name);
    }
}

proof fn lemma_orphans(t: ModelsToml, from: int)
    requires
        0 <= from,
    ensures
        ({
            let k = first_orphan_model(t.models@, family_names(t.families@), from);
            &&& from <= k
            &&& k < t.models@.len() ==> !lists_family(t, t.models@[k].family@)
            &&& forall|i: int| from <= i < k ==> lists_family(t, (#[trigger] t.models@[i]).family@)
        }),
        ({
            let k = first_orphan_name(t.bt_names@, family_names(t.families@), from);
            &&& from <= k
            &&& k < t.bt_names@.len() ==> !lists_family(t, t.bt_names@[k].family@)
            &&& forall|i: int|
                from <= i < k ==> lists_family(t, (#[trigger] t.bt_names@[i]).family@)
        }),
    decreases t.models@.len() + t.bt_names@.len() - from,
{
    if from < t.models@.len() {
        lemma_lists_family(t, t.models@[from].family@);
    }
    if from < t.bt_names@.len() {
        lemma_lists_family(t, t.bt_names@[from].family@);
    }
    if from < t.models@.len() || from < t.bt_names@.len() {
        lemma_orphans(t, from + 1);
    }
}

/// A table is taken exactly where it lists the family called `supvan_t50` and
/// every family that a model or an advertised name refers to.
pub proof fn tables_list_the_families_they_refer_to(
    t: &ModelsToml,
    source: &str,
    r: Result<Registry, String>,
)
    requires
        call_ensures(build_registry, (t, source), r),
    ensures
        r is Ok <==> {
            &&& lists_family(*t, "supvan_t50"@)
            &&& forall|i: int|
                0 <= i < t.models@.len() ==> lists_family(*t, (#[trigger] t.models@[i]).family@)
            &&& forall|i: int|
                0 <= i < t.bt_names@.len() ==> lists_family(*t, (#[trigger] t.bt_names@[i]).family@)
        },
{
    lemma_lists_family(*t, "supvan_t50"@);
    lemma_orphans(*t, 0);
}

/// A product number, letters in either case, has the model that the table lists
/// first under it, and none exactly where the table lists none.
pub proof fn product_numbers_have_the_model_listed_first(
    t: &ModelsToml,
    source: &str,
    reg: Registry,
    pid: &str,
    r: Option<&UsbModel>,
    i: int,
)
    requires
        call_ensures(build_registry, (t, source), Ok::<Registry, String>(reg)),
        call_ensures(model_by_pid, (&reg, pid), r),
        0 <= i < t.models@.len(),
        ascii_lowered(t.models@[i].pid@) == ascii_lowered(pid@),
        forall|j: int|
            0 <= j < i ==> ascii_lowered((#[trigger] t.models@[j]).pid@) != ascii_lowered(pid@),
    ensures
        r matches Some(m) && m.name@ == t.models@[i].name@ && m.pid@ == t.models@[i].pid@,
{
    assert(reg.models@[i].pid@ == t.models@[i].pid@);
    assert(same_ignoring_ascii_case(reg.models@[i].pid@, pid@));
    if r is Some {
        let m = r.unwrap();
        let k = choose|k: int|
            {
                &&& 0 <= k < reg.models@.len()
                &&& *m == #[trigger] reg.models@[k]
                &&& same_ignoring_ascii_case(reg.models@[k].pid@, pid@)
                &&& forall|j: int|
                    0 <= j < k ==> !same_ignoring_ascii_case(
                        (#[trigger] reg.models@[j]).pid@,
                        pid@,
                    )
            };
        assert(t.models@[k].pid@ == reg.models@[k].pid@);
    }
}

/// The table that is named is read before the one of the source tree, and that
/// before the installed one; one that cannot be used leaves the embedded one.
pub proof fn tables_are_looked_for_in_order(
    named: Option<String>,
    in_tree: bool,
    installed: bool,
    path: Option<String>,
    on_disk: Option<Result<Registry, String>>,
    embedded: Registry,
    used: Registry,
)
    requires
        call_ensures(find_toml_path, (named, in_tree, installed), path),
        call_ensures(load, (on_disk, embedded), used),
    ensures
        named is Some ==> path == named,
        named is None && in_tree ==> (path matches Some(p) && p@ == "data/models.toml"@),
        named is None && !in_tree && installed ==> (path matches Some(p) && p@
            == "/usr/share/supvan-printer-app/models.toml"@),
        named is None && !in_tree && !installed ==> path is None,
        on_disk matches Some(Ok(reg)) ==> used == reg,
        !(on_disk matches Some(Ok(_))) ==> used == embedded,
{
}

/// A device is taken for a printer where its name is a known one, or where its
/// address begins with the assigned block and its name with a letter `T`, `G` or
/// `D` and two digits; and not otherwise.
pub proof fn devices_are_known_by_name_or_by_block(
    reg: &Registry,
    addr: &str,
    name: &str,
    known: bool,
    device: bool,
)
    requires
        call_ensures(is_matching_bt_name, (reg, name), known),
        call_ensures(is_matching_bt_device, (reg, addr, name), device),
    ensures
        device <==> known || (in_assigned_block(addr@) && looks_like_a_serial(name@)),
{
    assert(addr@.len() >= 8 ==> (ascii_lowered(addr@.take(8))
        == ascii_lowered("A4:93:40"@)) == in_assigned_block(addr@)) by {
        reveal_strlit("A4:93:40");
        let a = ascii_lowered(addr@.take(8));
        let b = ascii_lowered("A4:93:40"@);
        if addr@.len() >= 8 {
            assert(b =~= seq!['a', '4', ':', '9', '3', ':', '4', '0']);
            assert(a.len() == 8);
            assert(a =~= b <==> (a[0] == 'a' && a[1] == '4' && a[2] == ':' && a[3] == '9' && a[4]
                == '3' && a[5] == ':' && a[6] == '4' && a[7] == '0'));
        }
    }
}

/// The address begins with `A4:93:40`, the letter in either case.
pub open spec fn in_assigned_block(addr: Seq<char>) -> bool {
    &&& addr.len() >= 8
    &&& addr[0] == 'A' || addr[0] == 'a'
    &&& addr[1] == '4' && addr[2] == ':' && addr[3] == '9' && addr[4] == '3' && addr[5] == ':'
        && addr[6] == '4' && addr[7] == '0'
}

/// The name begins with a letter `T`, `G` or `D` and two digits.
pub open spec fn looks_like_a_serial(name: Seq<char>) -> bool {
    &&& name.len() >= 3
    &&& name[0] == 'T' || name[0] == 'G' || name[0] == 'D'
    &&& '0' <= name[1] <= '9'
    &&& '0' <= name[2] <= '9'
}

/// A brand word anywhere in a name makes it a known one.
pub proof fn brand_words_make_a_name_known(reg: &Registry, name: &str, known: bool)
    requires
        call_ensures(is_matching_bt_name, (reg, name), known),
        occurs_in("supvan"@, lowercase(name@)) || occurs_in("katasymbol"@, lowercase(name@)),
    ensures
        known,
{
}

/// The model of a device ID is what stands behind `MDL:`, up to the next
/// separator, wherever that field comes.
pub proof fn models_are_read_from_device_ids(
    front: Seq<char>,
    model: Seq<char>,
    back: Seq<char>,
    id: &str,
    r: Option<String>,
)
    requires
        call_ensures(parse_mdl, (id,), r),
        !front.contains(';'),
        !"MDL:"@.is_prefix_of(front),
        !model.contains(';'),
        id@ == front + seq![';'] + "MDL:"@ + model + seq![';'] + back,
    ensures
        r matches Some(m) && m@ == model,
{
    crate::models::mdl_is_found_behind_other_fields(front, model, back);
}

} // verus!

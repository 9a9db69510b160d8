//! The model registry: driver families, USB product numbers, media tables and
//! the names that printers advertise.

use crate::bytes::append;
use crate::text::{
    after_prefix, chars_of, contains, eq_ignore_ascii_case, find_char, first_index, is_ascii_text,
    is_digit, is_digit_char, lowercase, lowercases_plainly, matches_at, occurs_in, push_signed,
    same_ignoring_ascii_case, same_text, signed_decimal, starts_with, string_of,
};
use vstd::prelude::*;
use vstd::utf8::encode_utf8;

verus! {

// ---------------------------------------------------------------------------
// The registry
// ---------------------------------------------------------------------------

/// A driver family groups models sharing the same printhead and resolution.
#[derive(Debug)]
pub struct DriverFamily {
    pub driver_name: String,
    pub make_and_model: Vec<u8>,
    pub dpi: i32,
    pub printhead_width_dots: u32,
    pub media_names: Vec<String>,
    /// In hundredths of a millimetre.
    pub media_sizes: Vec<[i32; 2]>,
}

/// A USB model identified by its product number.
#[derive(Debug)]
pub struct UsbModel {
    pub pid: String,
    pub name: String,
}

/// One advertised-name prefix and the printer it identifies.
#[derive(Debug)]
pub struct BtPrefix {
    pub prefix: String,
    pub model: String,
    pub family_idx: usize,
}

/// Everything known about the models.
#[derive(Debug)]
pub struct Registry {
    pub families: Vec<DriverFamily>,
    pub models: Vec<UsbModel>,
    /// Longest prefix first, so `t0021b` wins over `t0021`.
    pub bt_prefixes: Vec<BtPrefix>,
    pub default_family_idx: usize,
}

/// What a prefix entry says.
pub struct PrefixEntry {
    pub prefix: Seq<char>,
    pub model: Seq<char>,
    pub family: int,
}

impl View for BtPrefix {
    type V = PrefixEntry;

    open spec fn view(&self) -> PrefixEntry {
        PrefixEntry {
            prefix: self.prefix@,
            model: self.model@,
            family: self.family_idx as int,
        }
    }
}

/// What all prefix entries say.
pub open spec fn entries(prefixes: Seq<BtPrefix>) -> Seq<PrefixEntry> {
    prefixes.map_values(|p: BtPrefix| p@)
}

/// The length of a prefix in bytes.
pub open spec fn byte_len(p: PrefixEntry) -> nat {
    encode_utf8(p.prefix).len()
}

/// No prefix is longer than one before it.
pub open spec fn longest_first(list: Seq<PrefixEntry>) -> bool {
    forall|i: int, j: int|
        0 <= i < j < list.len() ==> byte_len(#[trigger] list[i]) >= byte_len(#[trigger] list[j])
}

impl Registry {
    /// Every index points at a family, and the longest prefix comes first.
    pub open spec fn wf(self) -> bool {
        &&& self.default_family_idx < self.families@.len()
        &&& forall|i: int|
            0 <= i < self.bt_prefixes@.len() ==> (#[trigger] self.bt_prefixes@[i]).family_idx
                < self.families@.len()
        &&& longest_first(entries(self.bt_prefixes@))
    }
}

// ---------------------------------------------------------------------------
// The model table
// ---------------------------------------------------------------------------

/// A family as the model table writes it.
#[derive(Debug)]
pub struct FamilyToml {
    pub name: String,
    pub description: String,
    pub dpi: i32,
    pub printhead_dots: u32,
    pub media_mm: Vec<[i32; 2]>,
}

/// A USB model as the model table writes it.
#[derive(Debug)]
pub struct ModelToml {
    pub pid: String,
    pub name: String,
    pub family: String,
}

/// The advertised names of a model as the model table writes them.
#[derive(Debug)]
pub struct BtNameToml {
    pub model: String,
    pub family: String,
    pub prefixes: Vec<String>,
}

/// The model table.
#[derive(Debug)]
pub struct ModelsToml {
    pub families: Vec<FamilyToml>,
    pub models: Vec<ModelToml>,
    pub bt_names: Vec<BtNameToml>,
}

/// The size in hundredths of a millimetre fits.
pub open spec fn size_fits(mm: [i32; 2]) -> bool {
    &&& i32::MIN <= mm@[0] * 100 <= i32::MAX
    &&& i32::MIN <= mm@[1] * 100 <= i32::MAX
}

/// All media sizes of a family fit.
pub open spec fn sizes_fit(f: FamilyToml) -> bool {
    forall|i: int| 0 <= i < f.media_mm@.len() ==> size_fits(#[trigger] f.media_mm@[i])
}

/// Self-describing media name: metric dimensions take the `om_` (other-metric)
/// class prefix; `oe_` is for inches.
pub open spec fn media_name_of(w: int, h: int) -> Seq<char> {
    "om_"@ + signed_decimal(w) + "x"@ + signed_decimal(h) + "mm_"@ + signed_decimal(w) + "x"@
        + signed_decimal(h) + "mm"@
}

/// The driver family that a family of the table becomes.
pub open spec fn is_family_of(d: DriverFamily, f: FamilyToml) -> bool {
    &&& d.driver_name@ == f.name@
    &&& d.make_and_model@ == encode_utf8(f.description@)
    &&& d.dpi == f.dpi
    &&& d.printhead_width_dots == f.printhead_dots
    &&& d.media_names@.len() == f.media_mm@.len()
    &&& d.media_sizes@.len() == f.media_mm@.len()
    &&& forall|i: int|
        0 <= i < f.media_mm@.len() ==> (#[trigger] d.media_names@[i])@ == media_name_of(
            f.media_mm@[i]@[0] as int,
            f.media_mm@[i]@[1] as int,
        )
    &&& forall|i: int|
        0 <= i < f.media_mm@.len() ==> {
            &&& (#[trigger] d.media_sizes@[i])@[0] == f.media_mm@[i]@[0] * 100
            &&& d.media_sizes@[i]@[1] == f.media_mm@[i]@[1] * 100
        }
}

/// The names of the families.
pub open spec fn family_names(families: Seq<FamilyToml>) -> Seq<Seq<char>> {
    families.map_values(|f: FamilyToml| f.name@)
}

/// Where the name stands; the last place where it stands twice.
pub open spec fn last_named(names: Seq<Seq<char>>, name: Seq<char>) -> Option<int>
    decreases names.len(),
{
    if names.len() == 0 {
        None
    } else if names.last() == name {
        Some(names.len() - 1)
    } else {
        last_named(names.drop_last(), name)
    }
}

/// The first model whose family is not in the table.
pub open spec fn first_orphan_model(models: Seq<ModelToml>, names: Seq<Seq<char>>, from: int) -> int
    decreases models.len() - from,
{
    if from < 0 || from >= models.len() || last_named(names, models[from].family@) is None {
        from
    } else {
        first_orphan_model(models, names, from + 1)
    }
}

/// The first entry of advertised names whose family is not in the table.
pub open spec fn first_orphan_name(list: Seq<BtNameToml>, names: Seq<Seq<char>>, from: int) -> int
    decreases list.len() - from,
{
    if from < 0 || from >= list.len() || last_named(names, list[from].family@) is None {
        from
    } else {
        first_orphan_name(list, names, from + 1)
    }
}

/// The family that the application falls back to.
pub open spec fn default_family_name() -> Seq<char> {
    "supvan_t50"@
}

/// What is wrong with the table, the first thing where it is more than one.
pub open spec fn table_fault(t: ModelsToml, source: Seq<char>) -> Option<Seq<char>> {
    let names = family_names(t.families@);
    let m = first_orphan_model(t.models@, names, 0);
    let b = first_orphan_name(t.bt_names@, names, 0);
    if last_named(names, default_family_name()) is None {
        Some(source + ": no 'supvan_t50' family"@)
    } else if m < t.models@.len() {
        Some(
            source + ": model '"@ + t.models@[m].name@ + "' references unknown family '"@
                + t.models@[m].family@ + "'"@,
        )
    } else if b < t.bt_names@.len() {
        Some(
            source + ": bt_names entry '"@ + t.bt_names@[b].model@
                + "' references unknown family '"@ + t.bt_names@[b].family@ + "'"@,
        )
    } else {
        None
    }
}

/// The prefix entries of one model.
pub open spec fn entries_of(e: BtNameToml, family: int) -> Seq<PrefixEntry> {
    Seq::new(
        e.prefixes@.len(),
        |i: int|
            PrefixEntry { prefix: lowercase(e.prefixes@[i]@), model: e.model@, family },
    )
}

/// Each prefix of the model lowercases letter by letter as far as it is ASCII.
pub open spec fn prefixes_lowercase_plainly(e: BtNameToml) -> bool {
    forall|i: int| 0 <= i < e.prefixes@.len() ==> lowercases_plainly(#[trigger] e.prefixes@[i]@)
}

/// The prefix entries of all models, as the table lists them.
pub open spec fn listed_entries(list: Seq<BtNameToml>, names: Seq<Seq<char>>) -> Seq<PrefixEntry>
    decreases list.len(),
{
    if list.len() == 0 {
        Seq::empty()
    } else {
        listed_entries(list.drop_last(), names) + entries_of(
            list.last(),
            last_named(names, list.last().family@).unwrap(),
        )
    }
}

/// Whether an entry's prefix has `n` bytes.
pub open spec fn has_len(n: nat) -> spec_fn(PrefixEntry) -> bool {
    |p: PrefixEntry| byte_len(p) == n
}

/// `out` is `list` by length, the longest first, entries of one length in the
/// order of the list.
pub open spec fn is_by_length(out: Seq<PrefixEntry>, list: Seq<PrefixEntry>) -> bool {
    &&& longest_first(out)
    &&& forall|n: nat| #[trigger] out.filter(has_len(n)) == list.filter(has_len(n))
}

/// The registry is what the table says.
pub open spec fn is_registry_of(r: Registry, t: ModelsToml) -> bool {
    let names = family_names(t.families@);
    &&& r.families@.len() == t.families@.len()
    &&& forall|i: int|
        0 <= i < t.families@.len() ==> is_family_of(#[trigger] r.families@[i], t.families@[i])
    &&& r.models@.len() == t.models@.len()
    &&& forall|i: int|
        0 <= i < t.models@.len() ==> {
            &&& (#[trigger] r.models@[i]).pid@ == t.models@[i].pid@
            &&& r.models@[i].name@ == t.models@[i].name@
        }
    &&& last_named(names, default_family_name()) == Some(r.default_family_idx as int)
    &&& is_by_length(entries(r.bt_prefixes@), listed_entries(t.bt_names@, names))
}

// ---------------------------------------------------------------------------
// Building
// ---------------------------------------------------------------------------

/// Self-describing media name of a label of `w` by `h` millimetres.
pub fn media_name(w: i32, h: i32) -> (r: String)
    ensures
        r@ == media_name_of(w as int, h as int),
{
    let mut s: String = String::new();
    s.append("om_");
    push_signed(&mut s, w);
    s.append("x");
    push_signed(&mut s, h);
    s.append("mm_");
    push_signed(&mut s, w);
    s.append("x");
    push_signed(&mut s, h);
    s.append("mm");
    assert(s@ =~= media_name_of(w as int, h as int));
    s
}

fn build_family(f: &FamilyToml) -> (r: DriverFamily)
    requires
        sizes_fit(*f),
    ensures
        is_family_of(r, *f),
{
    let mut make_and_model: Vec<u8> = Vec::new();
    append(&mut make_and_model, f.description.as_str().as_bytes());
    assert(make_and_model@ =~= encode_utf8(f.description@));
    let mut media_names: Vec<String> = Vec::new();
    let mut media_sizes: Vec<[i32; 2]> = Vec::new();
    let mut i: usize = 0;
    while i < f.media_mm.len()
        invariant
            i <= f.media_mm@.len(),
            sizes_fit(*f),
            media_names@.len() == i,
            media_sizes@.len() == i,
            forall|j: int|
                0 <= j < i ==> (#[trigger] media_names@[j])@ == media_name_of(
                    f.media_mm@[j]@[0] as int,
                    f.media_mm@[j]@[1] as int,
                ),
            forall|j: int|
                0 <= j < i ==> {
                    &&& (#[trigger] media_sizes@[j])@[0] == f.media_mm@[j]@[0] * 100
                    &&& media_sizes@[j]@[1] == f.media_mm@[j]@[1] * 100
                },
        decreases f.media_mm@.len() - i,
    {
        let mm: [i32; 2] = f.media_mm[i];
        assert(size_fits(f.media_mm@[i as int]));
        media_names.push(media_name(mm[0], mm[1]));
        media_sizes.push([mm[0] * 100, mm[1] * 100]);
        i += 1;
    }
    DriverFamily {
        driver_name: f.name.clone(),
        make_and_model,
        dpi: f.dpi,
        printhead_width_dots: f.printhead_dots,
        media_names,
        media_sizes,
    }
}

/// Where the family called `name` stands in the table.
fn find_family(families: &[FamilyToml], name: &str) -> (r: Option<usize>)
    ensures
        match (r, last_named(family_names(families@), name@)) {
            (Some(a), Some(b)) => a == b && a < families@.len(),
            (None, None) => true,
            _ => false,
        },
{
    let ghost names = family_names(families@);
    let mut n: usize = families.len();
    assert(names.take(n as int) =~= names);
    while n > 0
        invariant
            n <= families@.len(),
            names == family_names(families@),
            last_named(names.take(n as int), name@) == last_named(names, name@),
        decreases n,
    {
        assert(names.take(n as int).drop_last() =~= names.take(n - 1));
        assert(names.take(n as int).last() == families@[n - 1].name@);
        if same_text(families[n - 1].name.as_str(), name) {
            return Some(n - 1);
        }
        n -= 1;
    }
    None
}

proof fn lemma_filter_insert(
    list: Seq<PrefixEntry>,
    k: int,
    e: PrefixEntry,
    pred: spec_fn(PrefixEntry) -> bool,
)
    requires
        0 <= k <= list.len(),
        pred(e) ==> forall|i: int| k <= i < list.len() ==> !pred(#[trigger] list[i]),
    ensures
        list.insert(k, e).filter(pred) == if pred(e) {
            list.filter(pred).push(e)
        } else {
            list.filter(pred)
        },
{
    let front = list.take(k);
    let back = list.skip(k);
    assert(list =~= front + back);
    assert(list.insert(k, e) =~= front + seq![e] + back);
    Seq::filter_distributes_over_add(front, back, pred);
    Seq::filter_distributes_over_add(front + seq![e], back, pred);
    Seq::filter_distributes_over_add(front, seq![e], pred);
    reveal(Seq::filter);
    assert(seq![e].drop_last() =~= Seq::<PrefixEntry>::empty());
    assert(Seq::<PrefixEntry>::empty().filter(pred) =~= Seq::<PrefixEntry>::empty());
    if pred(e) {
        assert forall|i: int| 0 <= i < back.len() implies !pred(#[trigger] back[i]) by {
            assert(back[i] == list[k + i]);
        }
        lemma_filter_none(back, pred);
        assert(seq![e].filter(pred) =~= seq![e]);
        assert(list.insert(k, e).filter(pred) =~= list.filter(pred).push(e));
    } else {
        assert(seq![e].filter(pred) =~= Seq::<PrefixEntry>::empty());
        assert(list.insert(k, e).filter(pred) =~= list.filter(pred));
    }
}

proof fn lemma_filter_none(list: Seq<PrefixEntry>, pred: spec_fn(PrefixEntry) -> bool)
    requires
        forall|i: int| 0 <= i < list.len() ==> !pred(#[trigger] list[i]),
    ensures
        list.filter(pred) == Seq::<PrefixEntry>::empty(),
    decreases list.len(),
{
    reveal(Seq::filter);
    if list.len() > 0 {
        lemma_filter_none(list.drop_last(), pred);
    }
}

/// Adds an entry behind all that are at least as long.
fn insert_by_length(list: &mut Vec<BtPrefix>, p: BtPrefix, Ghost(listed): Ghost<Seq<PrefixEntry>>)
    requires
        is_by_length(entries(old(list)@), listed),
    ensures
        is_by_length(entries(final(list)@), listed.push(p@)),
        forall|i: int|
            0 <= i < final(list)@.len() ==> (#[trigger] final(list)@[i] == p || old(list)@.contains(
                final(list)@[i],
            )),
{
    let ghost before = list@;
    let ghost held = entries(before);
    let len: usize = p.prefix.as_str().as_bytes().len();
    let mut k: usize = list.len();
    while k > 0 && list[k - 1].prefix.as_str().as_bytes().len() < len
        invariant
            k <= list@.len(),
            list@ == before,
            held == entries(before),
            len == byte_len(p@),
            forall|i: int| k <= i < held.len() ==> byte_len(#[trigger] held[i]) < len,
        decreases k,
    {
        assert(held[k - 1] == list@[k - 1]@);
        k -= 1;
    }
    proof {
        assert(k > 0 ==> held[k - 1] == list@[k - 1]@);
    }
    let ghost e = p@;
    list.insert(k, p);
    proof {
        assert(list@ == before.insert(k as int, p));
        assert(entries(list@) =~= held.insert(k as int, e));
        let now = held.insert(k as int, e);
        assert forall|i: int, j: int| 0 <= i < j < now.len() implies byte_len(#[trigger] now[i])
            >= byte_len(#[trigger] now[j]) by {
            if i < k && k > 0 {
                assert(byte_len(held[i]) >= byte_len(held[k - 1]));
            }
        }
        assert forall|n: nat| #[trigger] now.filter(has_len(n)) == listed.push(e).filter(
            has_len(n),
        ) by {
            lemma_filter_insert(held, k as int, e, has_len(n));
            assert(held.filter(has_len(n)) == listed.filter(has_len(n)));
            reveal(Seq::filter);
            assert(listed.push(e).drop_last() =~= listed);
        }
        assert forall|i: int| 0 <= i < list@.len() implies (#[trigger] list@[i] == p
            || before.contains(list@[i])) by {
            if i < k {
                assert(list@[i] == before[i]);
            } else if i > k {
                assert(list@[i] == before[i - 1]);
            }
        }
    }
}

/// Family names can be handed to C, and all media sizes fit.
pub open spec fn families_fit(families: Seq<FamilyToml>) -> bool {
    forall|i: int|
        0 <= i < families.len() ==> {
            &&& sizes_fit(#[trigger] families[i])
            &&& !families[i].name@.contains('\0')
        }
}

fn build_families(list: &[FamilyToml]) -> (r: Vec<DriverFamily>)
    requires
        families_fit(list@),
    ensures
        r@.len() == list@.len(),
        forall|i: int| 0 <= i < list@.len() ==> is_family_of(#[trigger] r@[i], list@[i]),
{
    let mut families: Vec<DriverFamily> = Vec::new();
    let mut i: usize = 0;
    while i < list.len()
        invariant
            i <= list@.len(),
            families_fit(list@),
            families@.len() == i,
            forall|j: int| 0 <= j < i ==> is_family_of(#[trigger] families@[j], list@[j]),
        decreases list@.len() - i,
    {
        families.push(build_family(&list[i]));
        i += 1;
    }
    families
}

/// `{source}: {what} '{name}' references unknown family '{family}'`.
fn orphan_message(source: &str, what: &str, name: &str, family: &str) -> (r: String)
    ensures
        r@ == source@ + what@ + name@ + "' references unknown family '"@ + family@ + "'"@,
{
    let mut m: String = source.to_owned();
    m.append(what);
    m.append(name);
    m.append("' references unknown family '");
    m.append(family);
    m.append("'");
    m
}

/// Build the registry from the model table. `source` names the table in what is
/// said of a fault.
pub fn build_registry(toml: &ModelsToml, source: &str) -> (r: Result<Registry, String>)
    requires
        families_fit(toml.families@),
    ensures
        match r {
            Ok(reg) => {
                &&& table_fault(*toml, source@) is None
                &&& is_registry_of(reg, *toml)
                &&& reg.wf()
                &&& forall|i: int|
                    0 <= i < toml.bt_names@.len() ==> prefixes_lowercase_plainly(
                        #[trigger] toml.bt_names@[i],
                    )
            },
            Err(m) => table_fault(*toml, source@) == Some(m@),
        },
{
    let ghost names = family_names(toml.families@);
    let families: Vec<DriverFamily> = build_families(&toml.families);
    let default_family_idx: usize = match find_family(&toml.families, "supvan_t50") {
        Some(i) => i,
        None => {
            let mut m: String = source.to_owned();
            m.append(": no 'supvan_t50' family");
            return Err(m);
        },
    };
    let mut models: Vec<UsbModel> = Vec::new();
    let mut i: usize = 0;
    while i < toml.models.len()
        invariant
            i <= toml.models@.len(),
            names == family_names(toml.families@),
            last_named(names, default_family_name()) is Some,
            models@.len() == i,
            first_orphan_model(toml.models@, names, i as int) == first_orphan_model(
                toml.models@,
                names,
                0,
            ),
            forall|j: int|
                0 <= j < i ==> {
                    &&& (#[trigger] models@[j]).pid@ == toml.models@[j].pid@
                    &&& models@[j].name@ == toml.models@[j].name@
                },
        decreases toml.models@.len() - i,
    {
        let m: &ModelToml = &toml.models[i];
        if find_family(&toml.families, m.family.as_str()).is_none() {
            return Err(orphan_message(source, ": model '", m.name.as_str(), m.family.as_str()));
        }
        models.push(UsbModel { pid: m.pid.clone(), name: m.name.clone() });
        i += 1;
    }
    let mut bt_prefixes: Vec<BtPrefix> = Vec::new();
    let mut b: usize = 0;
    let ghost list = toml.bt_names@;
    proof {
        assert(list.take(0) =~= Seq::<BtNameToml>::empty());
        assert(entries(bt_prefixes@) =~= Seq::<PrefixEntry>::empty());
    }
    while b < toml.bt_names.len()
        invariant
            b <= toml.bt_names@.len(),
            list == toml.bt_names@,
            names == family_names(toml.families@),
            last_named(names, default_family_name()) is Some,
            first_orphan_model(toml.models@, names, 0) == toml.models@.len(),
            families@.len() == toml.families@.len(),
            first_orphan_name(list, names, b as int) == first_orphan_name(list, names, 0),
            is_by_length(entries(bt_prefixes@), listed_entries(list.take(b as int), names)),
            forall|i: int| 0 <= i < b ==> prefixes_lowercase_plainly(#[trigger] list[i]),
            forall|j: int|
                0 <= j < bt_prefixes@.len() ==> (#[trigger] bt_prefixes@[j]).family_idx
                    < families@.len(),
        decreases toml.bt_names@.len() - b,
    {
        let entry: &BtNameToml = &toml.bt_names[b];
        let family_idx: usize = match find_family(&toml.families, entry.family.as_str()) {
            Some(f) => f,
            None => {
                return Err(
                    orphan_message(
                        source,
                        ": bt_names entry '",
                        entry.model.as_str(),
                        entry.family.as_str(),
                    ),
                );
            },
        };
        let ghost front = listed_entries(list.take(b as int), names);
        let ghost mine = entries_of(*entry, family_idx as int);
        let mut k: usize = 0;
        assert(front + mine.take(0) =~= front);
        while k < entry.prefixes.len()
            invariant
                k <= entry.prefixes@.len(),
                mine == entries_of(*entry, family_idx as int),
                family_idx < families@.len(),
                is_by_length(entries(bt_prefixes@), front + mine.take(k as int)),
                forall|i: int|
                    0 <= i < k ==> lowercases_plainly(#[trigger] entry.prefixes@[i]@),
                forall|j: int|
                    0 <= j < bt_prefixes@.len() ==> (#[trigger] bt_prefixes@[j]).family_idx
                        < families@.len(),
            decreases entry.prefixes@.len() - k,
        {
            let p: BtPrefix = BtPrefix {
                prefix: entry.prefixes[k].to_lowercase(),
                model: entry.model.clone(),
                family_idx,
            };
            let ghost held = bt_prefixes@;
            assert((front + mine.take(k as int)).push(p@) =~= front + mine.take(k + 1));
            insert_by_length(&mut bt_prefixes, p, Ghost(front + mine.take(k as int)));
            proof {
                assert forall|j: int| 0 <= j < bt_prefixes@.len() implies (
                #[trigger] bt_prefixes@[j]).family_idx < families@.len() by {
                    if bt_prefixes@[j] != p {
                        let o = choose|o: int| 0 <= o < held.len() && held[o] == bt_prefixes@[j];
                        assert(held[o].family_idx < families@.len());
                    }
                }
            }
            k += 1;
        }
        proof {
            assert(mine.take(k as int) =~= mine);
            assert(list.take(b + 1).drop_last() =~= list.take(b as int));
            assert(list.take(b + 1).last() == *entry);
        }
        b += 1;
    }
    assert(list.take(b as int) =~= list);
    Ok(Registry { families, models, bt_prefixes, default_family_idx })
}

/// Which table to read: the explicit one where there is one, else the first of
/// the usual places that exists, else none on disk.
pub fn find_toml_path(explicit: Option<String>, in_tree: bool, installed: bool) -> (r: Option<
    String,
>)
    ensures
        match explicit {
            Some(path) => r == Some(path),
            None => match r {
                Some(path) => path@ == if in_tree {
                    "data/models.toml"@
                } else {
                    "/usr/share/supvan-printer-app/models.toml"@
                } && (in_tree || installed),
                None => !in_tree && !installed,
            },
        },
{
    if explicit.is_some() {
        explicit
    } else if in_tree {
        Some("data/models.toml".to_owned())
    } else if installed {
        Some("/usr/share/supvan-printer-app/models.toml".to_owned())
    } else {
        None
    }
}

/// The registry to run with: the one on disk, or the embedded one where there is
/// none or where it is no good.
///
/// A stale table on disk must not take the daemon down: an upgrade that adds a
/// field leaves the old copy unreadable, and the embedded one is always in step
/// with the program.
pub fn load(on_disk: Option<Result<Registry, String>>, embedded: Registry) -> (r: Registry)
    ensures
        r == match on_disk {
            Some(Ok(reg)) => reg,
            _ => embedded,
        },
{
    match on_disk {
        Some(Ok(reg)) => reg,
        _ => embedded,
    }
}

// ---------------------------------------------------------------------------
// Looking up
// ---------------------------------------------------------------------------

/// All driver families.
pub fn families(reg: &Registry) -> (r: &[DriverFamily])
    ensures
        r@ == reg.families@,
{
    reg.families.as_slice()
}

/// The default driver family.
pub fn default_family(reg: &Registry) -> (r: &DriverFamily)
    requires
        reg.wf(),
    ensures
        *r == reg.families@[reg.default_family_idx as int],
{
    &reg.families[reg.default_family_idx]
}

/// No model has the product number.
pub open spec fn lists_no_pid(models: Seq<UsbModel>, pid: Seq<char>) -> bool {
    forall|j: int|
        0 <= j < models.len() ==> !same_ignoring_ascii_case((#[trigger] models[j]).pid@, pid)
}

/// Find a USB model by its product number (hex, e.g. `"2073"`): the first one of
/// that number, letters in either case.
pub fn model_by_pid<'a>(reg: &'a Registry, pid: &str) -> (r: Option<&'a UsbModel>)
    ensures
        match r {
            Some(m) => exists|i: int|
                {
                    &&& 0 <= i < reg.models@.len()
                    &&& *m == #[trigger] reg.models@[i]
                    &&& same_ignoring_ascii_case(reg.models@[i].pid@, pid@)
                    &&& forall|j: int|
                        0 <= j < i ==> !same_ignoring_ascii_case(
                            (#[trigger] reg.models@[j]).pid@,
                            pid@,
                        )
                },
            None => lists_no_pid(reg.models@, pid@),
        },
{
    let mut i: usize = 0;
    while i < reg.models.len()
        invariant
            i <= reg.models@.len(),
            forall|j: int|
                0 <= j < i ==> !same_ignoring_ascii_case((#[trigger] reg.models@[j]).pid@, pid@),
        decreases reg.models@.len() - i,
    {
        if eq_ignore_ascii_case(reg.models[i].pid.as_str(), pid) {
            return Some(&reg.models[i]);
        }
        i += 1;
    }
    None
}

/// The first entry from `from` on whose prefix the lowercased name starts with.
pub open spec fn first_match(list: Seq<PrefixEntry>, lower: Seq<char>, from: int) -> int
    decreases list.len() - from,
{
    if from < 0 || from >= list.len() || list[from].prefix.is_prefix_of(lower) {
        from
    } else {
        first_match(list, lower, from + 1)
    }
}

/// The entry that identifies a lowercased name.
pub open spec fn identified(reg: Registry, lower: Seq<char>) -> Option<PrefixEntry> {
    let list = entries(reg.bt_prefixes@);
    let i = first_match(list, lower, 0);
    if i < list.len() {
        Some(list[i])
    } else {
        None
    }
}

/// What the entry says, where there is one.
pub open spec fn said(p: Option<&BtPrefix>) -> Option<PrefixEntry> {
    match p {
        Some(p) => Some(p@),
        None => None,
    }
}

/// Longest prefix of a name that is lowercased already, if any.
pub fn match_lowered<'a>(reg: &'a Registry, lower: &str) -> (r: Option<&'a BtPrefix>)
    ensures
        said(r) == identified(*reg, lower@),
        r matches Some(p) ==> reg.bt_prefixes@.contains(*p),
{
    let ghost list = entries(reg.bt_prefixes@);
    let mut i: usize = 0;
    while i < reg.bt_prefixes.len()
        invariant
            i <= reg.bt_prefixes@.len(),
            list == entries(reg.bt_prefixes@),
            first_match(list, lower@, i as int) == first_match(list, lower@, 0),
        decreases reg.bt_prefixes@.len() - i,
    {
        assert(list[i as int] == reg.bt_prefixes@[i as int]@);
        if starts_with(lower, reg.bt_prefixes[i].prefix.as_str()) {
            assert(reg.bt_prefixes@.contains(reg.bt_prefixes@[i as int]));
            return Some(&reg.bt_prefixes[i]);
        }
        i += 1;
    }
    None
}

/// Longest matching advertised-name prefix, if any.
pub fn match_bt_prefix<'a>(reg: &'a Registry, name: &str) -> (r: Option<&'a BtPrefix>)
    ensures
        said(r) == identified(*reg, lowercase(name@)),
        lowercases_plainly(name@),
        r matches Some(p) ==> reg.bt_prefixes@.contains(*p),
{
    let lower: String = name.to_lowercase();
    match_lowered(reg, lower.as_str())
}

/// The family of a lowercased name: that of its entry, or the default one.
pub open spec fn family_of_lowered(reg: Registry, lower: Seq<char>) -> DriverFamily {
    match identified(reg, lower) {
        Some(e) => reg.families@[e.family],
        None => reg.families@[reg.default_family_idx as int],
    }
}

/// The driver family of a name that is lowercased already.
pub fn family_for_lowered<'a>(reg: &'a Registry, lower: &str) -> (r: &'a DriverFamily)
    requires
        reg.wf(),
    ensures
        *r == family_of_lowered(*reg, lower@),
{
    match match_lowered(reg, lower) {
        Some(p) => &reg.families[p.family_idx],
        None => &reg.families[reg.default_family_idx],
    }
}

/// Determine the driver family from a model name or advertised name.
///
/// Falls back to the default family for unknown names.
pub fn family_for_model_hint<'a>(reg: &'a Registry, name: &str) -> (r: &'a DriverFamily)
    requires
        reg.wf(),
    ensures
        *r == family_of_lowered(*reg, lowercase(name@)),
        lowercases_plainly(name@),
{
    let lower: String = name.to_lowercase();
    family_for_lowered(reg, lower.as_str())
}

/// The marketing model name behind an advertised name (`T0182A2507162197` is an
/// `E11`), or `None` if the prefix is unknown.
pub fn bt_model_for_name<'a>(reg: &'a Registry, name: &str) -> (r: Option<&'a str>)
    ensures
        match (r, identified(*reg, lowercase(name@))) {
            (Some(m), Some(e)) => m@ == e.model,
            (None, None) => true,
            _ => false,
        },
        lowercases_plainly(name@),
{
    match match_bt_prefix(reg, name) {
        Some(p) => Some(p.model.as_str()),
        None => None,
    }
}

/// A lowercased name belongs to a known printer: a brand word stands anywhere in
/// it, or it has a known prefix.
pub open spec fn is_known_lowered(reg: Registry, lower: Seq<char>) -> bool {
    occurs_in("supvan"@, lower) || occurs_in("katasymbol"@, lower) || identified(reg, lower) is Some
}

/// Whether a name that is lowercased already belongs to a known printer.
pub fn is_matching_lowered(reg: &Registry, lower: &str) -> (r: bool)
    ensures
        r == is_known_lowered(*reg, lower@),
{
    contains(lower, "supvan") || contains(lower, "katasymbol") || match_lowered(
        reg,
        lower,
    ).is_some()
}

/// The name belongs to a known printer.
pub open spec fn is_known_name(reg: Registry, name: Seq<char>) -> bool {
    is_known_lowered(reg, lowercase(name))
}

/// Check if a Bluetooth device name matches any known printer.
pub fn is_matching_bt_name(reg: &Registry, name: &str) -> (r: bool)
    ensures
        r == is_known_name(*reg, name@),
        lowercases_plainly(name@),
{
    let lower: String = name.to_lowercase();
    is_matching_lowered(reg, lower.as_str())
}

/// The address starts with the assigned address block, letters in either case.
pub open spec fn has_supvan_oui(addr: Seq<char>) -> bool {
    addr.len() >= 8 && same_ignoring_ascii_case(addr.take(8), "A4:93:40"@)
}

/// Whether the address is in the assigned address block.
pub fn is_supvan_oui(addr: &str) -> (r: bool)
    ensures
        r == has_supvan_oui(addr@),
{
    let v: Vec<char> = chars_of(addr);
    if v.len() < 8 {
        return false;
    }
    let oui: String = string_of(&v, 0, 8);
    assert(addr@.subrange(0, 8) =~= addr@.take(8));
    eq_ignore_ascii_case(oui.as_str(), "A4:93:40")
}

/// A family letter `T`, `G` or `D` and two digits start the name.
pub open spec fn has_serial_shape(name: Seq<char>) -> bool {
    &&& name.len() >= 3
    &&& name[0] == 'T' || name[0] == 'G' || name[0] == 'D'
    &&& is_digit(name[1])
    &&& is_digit(name[2])
}

/// True for the firmware serial name a printer broadcasts: a `T`/`G`/`D`
/// family letter, a hardware code, then the unit serial (`T0143F2408183024`
/// for an E10, `T0117A2410211517` for a T50M Pro).
///
/// The prefix table can only list codes that are known, so a unit whose code
/// postdates it would be invisible to discovery. Safe as a generic fallback
/// when paired with [`is_supvan_oui`].
pub fn is_supvan_serial_name(name: &str) -> (r: bool)
    ensures
        r == has_serial_shape(name@),
{
    let v: Vec<char> = chars_of(name);
    v.len() >= 3 && (v[0] == 'T' || v[0] == 'G' || v[0] == 'D') && is_digit_char(v[1])
        && is_digit_char(v[2])
}

/// Whether a Bluetooth device looks like a printer of ours, given both its
/// address and advertised name. Accepts known prefixes anywhere, plus unknown
/// firmware serial names inside the address block.
pub fn is_matching_bt_device(reg: &Registry, addr: &str, name: &str) -> (r: bool)
    ensures
        r == (is_known_name(*reg, name@) || (has_supvan_oui(addr@) && has_serial_shape(name@))),
        lowercases_plainly(name@),
{
    is_matching_bt_name(reg, name) || (is_supvan_oui(addr) && is_supvan_serial_name(name))
}

/// What follows `MDL:` in the first `;`-separated field that starts with it.
pub open spec fn mdl_of(device_id: Seq<char>) -> Option<Seq<char>>
    decreases device_id.len(),
{
    let i = first_index(device_id, ';');
    match after_prefix(device_id.take(i), "MDL:"@) {
        Some(rest) => Some(rest),
        None => if 0 <= i < device_id.len() {
            mdl_of(device_id.skip(i + 1))
        } else {
            None
        },
    }
}

/// Parse the model field from an IEEE 1284 device ID string.
///
/// Example: `"MFG:Supvan;MDL:T50M Pro;CMD:SUPVAN;"` gives `T50M Pro`.
pub fn parse_mdl(device_id: &str) -> (r: Option<String>)
    ensures
        match (r, mdl_of(device_id@)) {
            (Some(a), Some(b)) => a@ == b,
            (None, None) => true,
            _ => false,
        },
{
    let v: Vec<char> = chars_of(device_id);
    let key: Vec<char> = chars_of("MDL:");
    let mut from: usize = 0;
    assert(v@.skip(0) =~= v@);
    loop
        invariant
            from <= v.len(),
            v@ == device_id@,
            key@ == "MDL:"@,
            mdl_of(v@.skip(from as int)) == mdl_of(device_id@),
        decreases v.len() - from,
    {
        let rest: Vec<char> = tail_of(&v, from);
        let len: usize = find_char(&rest, ';');
        let field: Vec<char> = head_of(&rest, len);
        proof {
            reveal_strlit("MDL:");
            assert(field@.skip(0) =~= field@);
        }
        if matches_at(&field, 0, &key) {
            let mdl: String = string_of(&field, key.len(), field.len());
            assert(mdl@ =~= field@.skip(key@.len() as int));
            return Some(mdl);
        }
        if len == rest.len() {
            return None;
        }
        assert(rest@.skip(len + 1) =~= v@.skip(from + len + 1));
        from = from + len + 1;
    }
}

fn tail_of(v: &[char], from: usize) -> (r: Vec<char>)
    requires
        from <= v@.len(),
    ensures
        r@ == v@.skip(from as int),
{
    let mut out: Vec<char> = Vec::new();
    let mut i: usize = from;
    while i < v.len()
        invariant
            from <= i <= v@.len(),
            out@ == v@.subrange(from as int, i as int),
        decreases v@.len() - i,
    {
        out.push(v[i]);
        i += 1;
        assert(v@.subrange(from as int, i as int) =~= v@.subrange(from as int, i - 1).push(
            v@[i - 1],
        ));
    }
    assert(out@ =~= v@.skip(from as int));
    out
}

fn head_of(v: &[char], to: usize) -> (r: Vec<char>)
    requires
        to <= v@.len(),
    ensures
        r@ == v@.take(to as int),
{
    let mut out: Vec<char> = Vec::new();
    let mut i: usize = 0;
    while i < to
        invariant
            i <= to <= v@.len(),
            out@ == v@.take(i as int),
        decreases to - i,
    {
        out.push(v[i]);
        i += 1;
        assert(v@.take(i as int) =~= v@.take(i - 1).push(v@[i - 1]));
    }
    out
}

// ---------------------------------------------------------------------------
// Laws
// ---------------------------------------------------------------------------

pub proof fn lemma_first_match(list: Seq<PrefixEntry>, lower: Seq<char>, from: int)
    requires
        0 <= from <= list.len(),
    ensures
        from <= first_match(list, lower, from) <= list.len(),
        first_match(list, lower, from) < list.len() ==> list[first_match(
            list,
            lower,
            from,
        )].prefix.is_prefix_of(lower),
        forall|j: int|
            from <= j < first_match(list, lower, from) ==> !(
            #[trigger] list[j]).prefix.is_prefix_of(lower),
    decreases list.len() - from,
{
    if from < list.len() && !list[from].prefix.is_prefix_of(lower) {
        lemma_first_match(list, lower, from + 1);
    }
}

/// The longest prefix wins: a name is identified by a prefix it starts with, and
/// no listed prefix that it starts with is longer.
pub proof fn longest_prefix_wins(reg: Registry, lower: Seq<char>, i: int)
    requires
        reg.wf(),
        0 <= i < reg.bt_prefixes@.len(),
        reg.bt_prefixes@[i].prefix@.is_prefix_of(lower),
    ensures
        identified(reg, lower) matches Some(e) && e.prefix.is_prefix_of(lower) && byte_len(e)
            >= byte_len(reg.bt_prefixes@[i]@),
{
    let list = entries(reg.bt_prefixes@);
    lemma_first_match(list, lower, 0);
    assert(list[i] == reg.bt_prefixes@[i]@);
    let k = first_match(list, lower, 0);
    assert(k <= i);
    if k < i {
        assert(byte_len(list[k]) >= byte_len(list[i]));
    }
}

/// A name that starts with no listed prefix is not identified, and falls to the
/// default family rather than being dropped.
pub proof fn unknown_names_get_the_default_family(reg: Registry, lower: Seq<char>)
    requires
        forall|i: int|
            0 <= i < reg.bt_prefixes@.len() ==> !(
            #[trigger] reg.bt_prefixes@[i]).prefix@.is_prefix_of(lower),
    ensures
        identified(reg, lower) is None,
        family_of_lowered(reg, lower) == reg.families@[reg.default_family_idx as int],
{
    let list = entries(reg.bt_prefixes@);
    lemma_first_match(list, lower, 0);
    let k = first_match(list, lower, 0);
    if k < list.len() {
        assert(list[k] == reg.bt_prefixes@[k]@);
    }
}

/// Letter case does not matter: ASCII names that agree up to case have the same
/// model.
pub proof fn models_ignore_letter_case(
    reg: &Registry,
    a: &str,
    b: &str,
    of_a: Option<&str>,
    of_b: Option<&str>,
)
    requires
        is_ascii_text(a@),
        is_ascii_text(b@),
        same_ignoring_ascii_case(a@, b@),
        call_ensures(bt_model_for_name, (reg, a), of_a),
        call_ensures(bt_model_for_name, (reg, b), of_b),
    ensures
        match (of_a, of_b) {
            (Some(m), Some(n)) => m@ == n@,
            (None, None) => true,
            _ => false,
        },
{
}

/// A serial behind a known name keeps it known, whatever the serial is made of.
pub proof fn appended_text_keeps_a_name_known(
    reg: &Registry,
    front: &str,
    name: &str,
    of_front: Option<&str>,
    of_name: Option<&str>,
)
    requires
        is_ascii_text(front@),
        front@.is_prefix_of(name@),
        call_ensures(bt_model_for_name, (reg, front), of_front),
        call_ensures(bt_model_for_name, (reg, name), of_name),
        of_front is Some,
    ensures
        of_name is Some,
{
    let list = entries(reg.bt_prefixes@);
    let short = lowercase(front@);
    let long = lowercase(name@);
    let n = front@.len() as int;
    assert(name@.take(n) =~= front@);
    assert(short.is_prefix_of(long));
    lemma_first_match(list, short, 0);
    lemma_first_match(list, long, 0);
    let k = first_match(list, short, 0);
    assert(list[k].prefix.is_prefix_of(long)) by {
        assert(list[k].prefix =~= long.subrange(0, list[k].prefix.len() as int));
    }
}

/// A name is known exactly where a brand word stands in it or it has a model.
pub proof fn known_by_brand_or_model(
    reg: &Registry,
    name: &str,
    known: bool,
    model: Option<&str>,
)
    requires
        call_ensures(is_matching_bt_name, (reg, name), known),
        call_ensures(bt_model_for_name, (reg, name), model),
    ensures
        known == (occurs_in("supvan"@, lowercase(name@)) || occurs_in(
            "katasymbol"@,
            lowercase(name@),
        ) || model is Some),
{
}

/// A device ID with a model field in it gives that model back.
pub proof fn mdl_is_found_behind_other_fields(
    front: Seq<char>,
    model: Seq<char>,
    back: Seq<char>,
)
    requires
        !front.contains(';'),
        !"MDL:"@.is_prefix_of(front),
        !model.contains(';'),
    ensures
        mdl_of(front + seq![';'] + "MDL:"@ + model + seq![';'] + back) == Some(model),
{
    reveal_strlit("MDL:");
    let id = front + seq![';'] + "MDL:"@ + model + seq![';'] + back;
    let n = front.len() as int;
    assert forall|j: int| 0 <= j < n implies id[j] != ';' by {
        assert(front.contains(front[j]));
    }
    crate::text::lemma_first_index_is(id, ';', n);
    assert(id.take(n) =~= front);
    let rest = id.skip(n + 1);
    let field = "MDL:"@ + model;
    assert(rest =~= field + seq![';'] + back);
    let m = field.len() as int;
    assert forall|j: int| 0 <= j < m implies rest[j] != ';' by {
        if j >= 4 {
            assert(rest[j] == model[j - 4]);
            assert(model.contains(model[j - 4]));
        }
    }
    crate::text::lemma_first_index_is(rest, ';', m);
    assert(rest.take(m) =~= field);
    assert(field.subrange(0, 4) =~= "MDL:"@);
    assert(field.skip(4) =~= model);
    reveal_with_fuel(mdl_of, 2);
}

} // verus!

//! Which name a device goes by, and the files named after it.

use vstd::prelude::*;
use vstd::utf8;

use crate::path;
use crate::path::UnixPath;
use crate::text;

verus! {

/// One link of `/dev/disk/by-id` and what it resolves to, if it resolves.
pub struct ByIdEntry {
    pub path: UnixPath,
    pub target: Option<UnixPath>,
}

impl ByIdEntry {
    /// Whether the link resolves to `device`.
    pub open spec fn links_to(self, device: Seq<u8>) -> bool {
        self.target matches Some(target) && path::same_path(target@, device)
    }
}

/// Whether a link name says nothing of the make of the device.
pub open spec fn is_generic(name: Seq<char>) -> bool {
    ||| text::starts_with(name, "wwn-"@)
    ||| text::starts_with(name, "nvme-eui."@)
    ||| text::starts_with(name, "dm-uuid-"@)
    ||| text::starts_with(name, "dm-name-"@)
}

/// The name of a link; empty if it is not UTF-8.
pub open spec fn link_name(path: Seq<u8>) -> Seq<char> {
    match path::file_name_text(path) {
        Some(name) => name,
        None => seq![],
    }
}

/// The rank of a link: whether its name is generic, the bytes of its name, and the name.
pub open spec fn rank_of(path: Seq<u8>) -> (nat, nat, Seq<u8>) {
    let name = link_name(path);
    (
        if is_generic(name) {
            1
        } else {
            0
        },
        utf8::encode_utf8(name).len(),
        utf8::encode_utf8(name),
    )
}

/// Whether `a` comes before `b` in the order of a dictionary of byte strings.
pub open spec fn bytes_precede(a: Seq<u8>, b: Seq<u8>) -> bool
    decreases a.len(),
{
    if a.len() == 0 || b.len() == 0 {
        a.len() < b.len()
    } else {
        a[0] < b[0] || (a[0] == b[0] && bytes_precede(a.drop_first(), b.drop_first()))
    }
}

/// Whether rank `a` is better than rank `b`: the first part that differs decides.
pub open spec fn rank_precedes(a: (nat, nat, Seq<u8>), b: (nat, nat, Seq<u8>)) -> bool {
    ||| a.0 < b.0
    ||| a.0 == b.0 && a.1 < b.1
    ||| a.0 == b.0 && a.1 == b.1 && bytes_precede(a.2, b.2)
}

/// The rank of a link as numbers and text. Lower is better.
pub fn by_id_rank(path: &UnixPath) -> (rank: (u8, usize, String))
    ensures
        rank.0 == rank_of(path@).0,
        rank.1 == rank_of(path@).1,
        rank.2@ == link_name(path@),
        utf8::encode_utf8(rank.2@) == rank_of(path@).2,
        rank.0 <= 1,
        rank.0 == 1 <==> "wwn-"@.is_prefix_of(rank.2@) || "nvme-eui."@.is_prefix_of(rank.2@)
            || "dm-uuid-"@.is_prefix_of(rank.2@) || "dm-name-"@.is_prefix_of(rank.2@),
        rank.1 == utf8::encode_utf8(rank.2@).len(),
        path::file_name_text(path@) matches Some(name) ==> rank.2@ == name,
{
    let name = match path.file_name() {
        Some(name) => name,
        None => String::new(),
    };
    assert(name@ =~= link_name(path@));
    let generic = text::has_prefix(name.as_str(), "wwn-") || text::has_prefix(
        name.as_str(),
        "nvme-eui.",
    ) || text::has_prefix(name.as_str(), "dm-uuid-") || text::has_prefix(
        name.as_str(),
        "dm-name-",
    );
    let class: u8 = if generic {
        1
    } else {
        0
    };
    let len = name.as_str().as_bytes().len();
    (class, len, name)
}

proof fn lemma_bytes_precede_order(a: Seq<u8>, b: Seq<u8>)
    ensures
        !(bytes_precede(a, b) && bytes_precede(b, a)),
        a == b || bytes_precede(a, b) || bytes_precede(b, a),
        a == b ==> !bytes_precede(a, b),
    decreases a.len(),
{
    if a.len() > 0 && b.len() > 0 {
        lemma_bytes_precede_order(a.drop_first(), b.drop_first());
        if a[0] == b[0] && a.drop_first() == b.drop_first() {
            assert(a =~= seq![a[0]] + a.drop_first());
            assert(b =~= seq![b[0]] + b.drop_first());
        }
    } else if a.len() == b.len() {
        assert(a =~= b);
    }
}

proof fn lemma_bytes_precede_transitive(a: Seq<u8>, b: Seq<u8>, c: Seq<u8>)
    requires
        bytes_precede(a, b),
        bytes_precede(b, c),
    ensures
        bytes_precede(a, c),
    decreases a.len(),
{
    if a.len() > 0 && b.len() > 0 && c.len() > 0 && a[0] == b[0] && b[0] == c[0] {
        lemma_bytes_precede_transitive(a.drop_first(), b.drop_first(), c.drop_first());
    }
}

proof fn lemma_rank_order(a: (nat, nat, Seq<u8>), b: (nat, nat, Seq<u8>), c: (nat, nat, Seq<u8>))
    ensures
        !(rank_precedes(a, b) && rank_precedes(b, a)),
        a == b || rank_precedes(a, b) || rank_precedes(b, a),
        rank_precedes(a, b) && rank_precedes(b, c) ==> rank_precedes(a, c),
{
    lemma_bytes_precede_order(a.2, b.2);
    if bytes_precede(a.2, b.2) && bytes_precede(b.2, c.2) {
        lemma_bytes_precede_transitive(a.2, b.2, c.2);
    }
}

fn bytes_before(a: &[u8], b: &[u8]) -> (before: bool)
    ensures
        before == bytes_precede(a@, b@),
{
    let mut from: usize = 0;
    assert(a@.skip(0) =~= a@);
    assert(b@.skip(0) =~= b@);
    while from < a.len() && from < b.len() && a[from] == b[from]
        invariant
            from <= a@.len(),
            from <= b@.len(),
            bytes_precede(a@, b@) == bytes_precede(a@.skip(from as int), b@.skip(from as int)),
        decreases a@.len() - from,
    {
        assert(a@.skip(from as int).drop_first() =~= a@.skip(from + 1));
        assert(b@.skip(from as int).drop_first() =~= b@.skip(from + 1));
        from = from + 1;
    }
    if from == a.len() || from == b.len() {
        a.len() < b.len()
    } else {
        a[from] < b[from]
    }
}

fn is_better(a: &(u8, usize, String), b: &(u8, usize, String)) -> (better: bool)
    ensures
        better == rank_precedes(
            (a.0 as nat, a.1 as nat, utf8::encode_utf8(a.2@)),
            (b.0 as nat, b.1 as nat, utf8::encode_utf8(b.2@)),
        ),
{
    if a.0 != b.0 {
        return a.0 < b.0;
    }
    if a.1 != b.1 {
        return a.1 < b.1;
    }
    bytes_before(a.2.as_str().as_bytes(), b.2.as_str().as_bytes())
}

/// Whether entry `i` is the one to name the device after: it links to the device, no other link
/// to it has a better rank, and it comes first among those of its rank.
pub open spec fn is_best(entries: Seq<ByIdEntry>, device: Seq<u8>, i: int) -> bool {
    &&& 0 <= i < entries.len()
    &&& entries[i].links_to(device)
    &&& forall|j: int|
        0 <= j < entries.len() && (#[trigger] entries[j]).links_to(device) ==> !rank_precedes(
            rank_of(entries[j].path@),
            rank_of(entries[i].path@),
        )
    &&& forall|j: int|
        0 <= j < i && (#[trigger] entries[j]).links_to(device) ==> rank_precedes(
            rank_of(entries[i].path@),
            rank_of(entries[j].path@),
        )
}

/// The link to name the device after: the first of the best-ranked ones that resolve to it.
pub fn best_by_id_path(entries: &Vec<ByIdEntry>, canonical_device: &UnixPath) -> (best: Option<
    UnixPath,
>)
    ensures
        best is None <==> forall|i: int|
            0 <= i < entries@.len() ==> !(#[trigger] entries@[i]).links_to(canonical_device@),
        best matches Some(p) ==> exists|i: int|
            is_best(entries@, canonical_device@, i) && p@ == entries@[i].path@,
        forall|i: int|
            0 <= i < entries@.len() && ((#[trigger] entries@[i]).target matches Some(target)
                && path::same_path(target@, canonical_device@)) ==> best is Some,
{
    let mut best: Option<usize> = None;
    let mut i: usize = 0;
    while i < entries.len()
        invariant
            i <= entries@.len(),
            best matches Some(k) ==> k < i && is_best(
                entries@.take(i as int),
                canonical_device@,
                k as int,
            ),
            best is None ==> forall|j: int|
                0 <= j < i ==> !(#[trigger] entries@[j]).links_to(canonical_device@),
        decreases entries@.len() - i,
    {
        let ghost seen = entries@.take(i as int);
        let ghost more = entries@.take(i + 1);
        let linked = match &entries[i].target {
            Some(target) => target.same_as(canonical_device),
            None => false,
        };
        assert(linked == entries@[i as int].links_to(canonical_device@));
        assert(forall|j: int| 0 <= j < i ==> #[trigger] more[j] == seen[j]);
        assert(more[i as int] == entries@[i as int]);
        if linked {
            match best {
                None => {
                    best = Some(i);
                    proof {
                        let rank = rank_of(entries@[i as int].path@);
                        lemma_rank_order(rank, rank, rank);
                    }
                    assert(is_best(more, canonical_device@, i as int));
                },
                Some(k) => {
                    let rank = by_id_rank(&entries[i].path);
                    let best_rank = by_id_rank(&entries[k].path);
                    if is_better(&rank, &best_rank) {
                        proof {
                            let mine = rank_of(entries@[i as int].path@);
                            let theirs = rank_of(entries@[k as int].path@);
                            assert forall|j: int|
                                0 <= j < i && (#[trigger] more[j]).links_to(
                                    canonical_device@,
                                ) implies rank_precedes(mine, rank_of(more[j].path@)) by {
                                assert(seen[j] == more[j]);
                                lemma_rank_order(rank_of(more[j].path@), theirs, mine);
                                lemma_rank_order(mine, theirs, rank_of(more[j].path@));
                            }
                            assert forall|j: int|
                                0 <= j < more.len() && (#[trigger] more[j]).links_to(
                                    canonical_device@,
                                ) implies !rank_precedes(rank_of(more[j].path@), mine) by {
                                lemma_rank_order(mine, rank_of(more[j].path@), mine);
                            }
                        }
                        best = Some(i);
                        assert(is_best(more, canonical_device@, i as int));
                    } else {
                        assert(seen[k as int] == more[k as int]);
                        assert(is_best(more, canonical_device@, k as int));
                    }
                },
            }
        } else {
            match best {
                Some(k) => {
                    assert(seen[k as int] == more[k as int]);
                    assert(is_best(more, canonical_device@, k as int));
                },
                None => {},
            }
        }
        i = i + 1;
    }
    assert(entries@.take(entries@.len() as int) =~= entries@);
    match best {
        Some(k) => {
            assert(is_best(entries@, canonical_device@, k as int));
            assert(entries@[k as int].links_to(canonical_device@));
            Some(entries[k].path.clone())
        },
        None => None,
    }
}

/// A device with a link of a telling name is never named after a generic one.
pub proof fn law_telling_links_win(entries: Seq<ByIdEntry>, device: Seq<u8>, best: int, other: int)
    requires
        is_best(entries, device, best),
        0 <= other < entries.len(),
        entries[other].links_to(device),
        !is_generic(link_name(entries[other].path@)),
    ensures
        !is_generic(link_name(entries[best].path@)),
{
    assert(!rank_precedes(rank_of(entries[other].path@), rank_of(entries[best].path@)));
}

/// Whether a link name starts with `wwn-`, `nvme-eui.`, `dm-uuid-` or `dm-name-`.
pub open spec fn starts_generically(name: Seq<char>) -> bool {
    ||| "wwn-"@.is_prefix_of(name)
    ||| "nvme-eui."@.is_prefix_of(name)
    ||| "dm-uuid-"@.is_prefix_of(name)
    ||| "dm-name-"@.is_prefix_of(name)
}

/// A link whose name starts with none of `wwn-`, `nvme-eui.`, `dm-uuid-` and `dm-name-` ranks
/// before every link whose name starts with one of them, whatever else the names are.
pub proof fn law_telling_names_rank_first(
    telling: Seq<u8>,
    telling_name: Seq<char>,
    generic: Seq<u8>,
    generic_name: Seq<char>,
)
    requires
        path::file_name_text(telling) == Some(telling_name),
        path::file_name_text(generic) == Some(generic_name),
        !"wwn-"@.is_prefix_of(telling_name),
        !"nvme-eui."@.is_prefix_of(telling_name),
        !"dm-uuid-"@.is_prefix_of(telling_name),
        !"dm-name-"@.is_prefix_of(telling_name),
        "wwn-"@.is_prefix_of(generic_name) || "nvme-eui."@.is_prefix_of(generic_name)
            || "dm-uuid-"@.is_prefix_of(generic_name) || "dm-name-"@.is_prefix_of(generic_name),
    ensures
        rank_of(telling).0 == 0,
        rank_of(generic).0 == 1,
        rank_precedes(rank_of(telling), rank_of(generic)),
        !rank_precedes(rank_of(generic), rank_of(telling)),
{
}

/// Of two links whose names both start in a generic way, or both do not, the one with fewer bytes
/// in its name ranks first.
pub proof fn law_shorter_names_rank_first(
    a: Seq<u8>,
    a_name: Seq<char>,
    b: Seq<u8>,
    b_name: Seq<char>,
)
    requires
        path::file_name_text(a) == Some(a_name),
        path::file_name_text(b) == Some(b_name),
        starts_generically(a_name) == starts_generically(b_name),
        utf8::encode_utf8(a_name).len() < utf8::encode_utf8(b_name).len(),
    ensures
        rank_of(a).1 == utf8::encode_utf8(a_name).len(),
        rank_of(a).2 == utf8::encode_utf8(a_name),
        rank_precedes(rank_of(a), rank_of(b)),
        !rank_precedes(rank_of(b), rank_of(a)),
{
}

/// Of two links whose names are as long and both start in a generic way, or both do not, the one
/// with the lesser byte where the names first differ ranks first.
pub proof fn law_names_of_one_length_rank_as_in_a_dictionary(
    a: Seq<u8>,
    a_name: Seq<char>,
    b: Seq<u8>,
    b_name: Seq<char>,
    at: int,
)
    requires
        path::file_name_text(a) == Some(a_name),
        path::file_name_text(b) == Some(b_name),
        starts_generically(a_name) == starts_generically(b_name),
        utf8::encode_utf8(a_name).len() == utf8::encode_utf8(b_name).len(),
        0 <= at < utf8::encode_utf8(a_name).len(),
        utf8::encode_utf8(a_name).take(at) == utf8::encode_utf8(b_name).take(at),
        utf8::encode_utf8(a_name)[at] < utf8::encode_utf8(b_name)[at],
    ensures
        rank_precedes(rank_of(a), rank_of(b)),
        !rank_precedes(rank_of(b), rank_of(a)),
{
    lemma_first_difference_decides(utf8::encode_utf8(a_name), utf8::encode_utf8(b_name), at);
    lemma_bytes_precede_order(utf8::encode_utf8(a_name), utf8::encode_utf8(b_name));
}

proof fn lemma_first_difference_decides(a: Seq<u8>, b: Seq<u8>, at: int)
    requires
        0 <= at < a.len(),
        at < b.len(),
        a.take(at) == b.take(at),
        a[at] < b[at],
    ensures
        bytes_precede(a, b),
    decreases at,
{
    if at > 0 {
        assert(a[0] == a.take(at)[0] && b[0] == b.take(at)[0]);
        assert(a.drop_first().take(at - 1) =~= a.take(at).drop_first());
        assert(b.drop_first().take(at - 1) =~= b.take(at).drop_first());
        lemma_first_difference_decides(a.drop_first(), b.drop_first(), at - 1);
    }
}

/// Links of one name rank equally, wherever they lie, and a link without a name as if its name
/// were empty.
pub proof fn law_only_the_name_of_a_link_ranks_it(a: Seq<u8>, b: Seq<u8>)
    requires
        path::file_name_text(a) == path::file_name_text(b),
    ensures
        rank_of(a) == rank_of(b),
        !rank_precedes(rank_of(a), rank_of(b)),
        path::file_name_text(a) is None ==> {
            &&& rank_of(a).0 == 0
            &&& rank_of(a).1 == 0
            &&& rank_of(a).2.len() == 0
        },
{
    lemma_bytes_precede_order(rank_of(a).2, rank_of(b).2);
    if path::file_name_text(a) is None {
        reveal_strlit("wwn-");
        reveal_strlit("nvme-eui.");
        reveal_strlit("dm-uuid-");
        reveal_strlit("dm-name-");
        assert(link_name(a).len() == 0);
        assert(utf8::encode_utf8(link_name(a)).len() == 0);
    }
}

/// The link that a device is named after resolves to it, and every link that resolves to the path
/// of the device is a candidate. No candidate ranks before the one chosen, and of those that
/// rank equally it comes first.
pub proof fn law_best_link_is_chosen(
    entries: Seq<ByIdEntry>,
    device: Seq<u8>,
    best: int,
    other: int,
)
    requires
        is_best(entries, device, best),
        0 <= other < entries.len(),
        entries[other].target matches Some(target) && path::same_path(target@, device),
    ensures
        entries[other].links_to(device),
        0 <= best < entries.len(),
        entries[best].target is Some,
        path::same_path(entries[best].target->0@, device),
        rank_precedes(rank_of(entries[best].path@), rank_of(entries[other].path@)) || (rank_of(
            entries[best].path@,
        ) == rank_of(entries[other].path@) && best <= other),
{
    assert(entries[other].links_to(device));
    lemma_rank_order(
        rank_of(entries[best].path@),
        rank_of(entries[other].path@),
        rank_of(entries[best].path@),
    );
}

/// A device with a link whose name starts with none of `wwn-`, `nvme-eui.`, `dm-uuid-` and
/// `dm-name-` is never named after a link whose name starts with one of them.
pub proof fn law_devices_get_telling_names(
    entries: Seq<ByIdEntry>,
    device: Seq<u8>,
    best: int,
    best_name: Seq<char>,
    other: int,
    other_name: Seq<char>,
)
    requires
        is_best(entries, device, best),
        path::file_name_text(entries[best].path@) == Some(best_name),
        0 <= other < entries.len(),
        entries[other].target matches Some(target) && path::same_path(target@, device),
        path::file_name_text(entries[other].path@) == Some(other_name),
        !"wwn-"@.is_prefix_of(other_name),
        !"nvme-eui."@.is_prefix_of(other_name),
        !"dm-uuid-"@.is_prefix_of(other_name),
        !"dm-name-"@.is_prefix_of(other_name),
    ensures
        !"wwn-"@.is_prefix_of(best_name),
        !"nvme-eui."@.is_prefix_of(best_name),
        !"dm-uuid-"@.is_prefix_of(best_name),
        !"dm-name-"@.is_prefix_of(best_name),
{
    assert(entries[other].links_to(device));
    if starts_generically(best_name) {
        law_telling_names_rank_first(
            entries[other].path@,
            other_name,
            entries[best].path@,
            best_name,
        );
    }
}

/// At most one entry is the one to name the device after.
pub proof fn law_best_link_is_unique(entries: Seq<ByIdEntry>, device: Seq<u8>, a: int, b: int)
    requires
        is_best(entries, device, a),
        is_best(entries, device, b),
    ensures
        a == b,
{
    assert(entries[a].links_to(device) && entries[b].links_to(device));
}

/// The label that a link name gives: the name without the bus it starts with.
pub open spec fn label_of_link(name: Seq<char>) -> Seq<char> {
    if text::starts_with(name, "nvme-"@) {
        text::stripped(name, "nvme-"@)->0
    } else if text::starts_with(name, "ata-"@) {
        text::stripped(name, "ata-"@)->0
    } else if text::starts_with(name, "scsi-"@) {
        text::stripped(name, "scsi-"@)->0
    } else if text::starts_with(name, "usb-"@) {
        text::stripped(name, "usb-"@)->0
    } else {
        name
    }
}

/// The label that a link name gives: the name without the bus it starts with.
pub fn device_label_from_by_id(name: &str) -> (label: String)
    ensures
        label@ == label_of_link(name@),
{
    if let Some(rest) = text::strip(name, "nvme-") {
        return rest;
    }
    if let Some(rest) = text::strip(name, "ata-") {
        return rest;
    }
    if let Some(rest) = text::strip(name, "scsi-") {
        return rest;
    }
    if let Some(rest) = text::strip(name, "usb-") {
        return rest;
    }
    name.to_owned()
}

/// A label is what follows the bus in the name of the link.
pub proof fn law_labels_leave_out_the_bus(rest: Seq<char>)
    ensures
        label_of_link("nvme-"@ + rest) == rest,
        label_of_link("ata-"@ + rest) == rest,
        label_of_link("scsi-"@ + rest) == rest,
        label_of_link("usb-"@ + rest) == rest,
{
    reveal_strlit("nvme-");
    reveal_strlit("ata-");
    reveal_strlit("scsi-");
    reveal_strlit("usb-");
    let nvme = "nvme-"@ + rest;
    let ata = "ata-"@ + rest;
    let scsi = "scsi-"@ + rest;
    let usb = "usb-"@ + rest;
    assert(nvme.subrange(0, 5) =~= "nvme-"@);
    assert(ata.subrange(0, 4) =~= "ata-"@);
    assert(scsi.subrange(0, 5) =~= "scsi-"@);
    assert(usb.subrange(0, 4) =~= "usb-"@);
    assert("nvme-"@[0] == 'n' && "ata-"@[0] == 'a' && "scsi-"@[0] == 's' && "usb-"@[0] == 'u');
    assert(ata[0] == 'a' && scsi[0] == 's' && usb[0] == 'u');
    lemma_prefix_starts("nvme-"@, ata);
    lemma_prefix_starts("nvme-"@, scsi);
    lemma_prefix_starts("nvme-"@, usb);
    lemma_prefix_starts("ata-"@, scsi);
    lemma_prefix_starts("ata-"@, usb);
    lemma_prefix_starts("scsi-"@, usb);
    assert(nvme.skip(5) =~= rest);
    assert(ata.skip(4) =~= rest);
    assert(scsi.skip(5) =~= rest);
    assert(usb.skip(4) =~= rest);
}

proof fn lemma_prefix_starts(prefix: Seq<char>, name: Seq<char>)
    requires
        prefix.len() > 0,
    ensures
        prefix.is_prefix_of(name) ==> prefix[0] == name[0],
{
    if prefix.is_prefix_of(name) {
        assert(name.subrange(0, prefix.len() as int)[0] == name[0]);
    }
}

/// A link name that starts with no bus is the label as it stands.
pub proof fn law_labels_keep_other_names(name: Seq<char>)
    requires
        !"nvme-"@.is_prefix_of(name),
        !"ata-"@.is_prefix_of(name),
        !"scsi-"@.is_prefix_of(name),
        !"usb-"@.is_prefix_of(name),
    ensures
        label_of_link(name) == name,
{
}

/// What is known of the device under test.
pub struct DeviceMetadata {
    /// The path as it was given.
    pub input_path: UnixPath,
    /// The path with all links resolved.
    pub canonical_path: UnixPath,
    /// The link of `/dev/disk/by-id` that the device is named after.
    pub by_id_path: Option<UnixPath>,
    /// The name of the device.
    pub label: String,
}

/// The name of the device at `path` whose best link is `by_id`.
pub open spec fn device_label(by_id: Option<Seq<u8>>, path: Seq<u8>) -> Seq<char> {
    if by_id matches Some(link) && path::file_name_text(link) is Some {
        label_of_link(path::file_name_text(by_id->0)->0)
    } else if path::file_name_text(path) is Some {
        path::file_name_text(path)->0
    } else {
        "block-device"@
    }
}

/// A device is named after its link, else after its node, else by a stand-in.
pub proof fn law_devices_are_named_after_link_or_node(
    by_id: UnixPath,
    link: Seq<u8>,
    path: Seq<u8>,
    name: Seq<char>,
)
    ensures
        path_view(Some(by_id)) == Some(by_id@),
        path_view(None) is None,
        path::file_name_text(link) == Some(name) ==> device_label(Some(link), path)
            == label_of_link(name),
        path::file_name_text(path) == Some(name) ==> device_label(None, path) == name,
        path::file_name_text(link) is None ==> device_label(Some(link), path) == device_label(
            None,
            path,
        ),
        path::file_name_text(path) is None ==> device_label(None, path) == "block-device"@,
{
}

/// The view of an optional path.
pub open spec fn path_view(path: Option<UnixPath>) -> Option<Seq<u8>> {
    match path {
        Some(p) => Some(p@),
        None => None,
    }
}

/// The path of a device with all links resolved, or as given where it does not resolve.
pub open spec fn canonical(path: Seq<u8>, resolved: Option<Seq<u8>>) -> Seq<u8> {
    match resolved {
        Some(r) => r,
        None => path,
    }
}

/// The resolved path of a device does not depend on how the device was given; only a path that
/// does not resolve stands for itself.
pub proof fn law_resolved_paths_are_kept(path: Seq<u8>, other: Seq<u8>, resolved: Seq<u8>)
    ensures
        canonical(path, Some(resolved)) == resolved,
        canonical(path, Some(resolved)) == canonical(other, Some(resolved)),
        canonical(path, None) == path,
{
}

impl DeviceMetadata {
    /// What is known of the device at `path`, given what the path resolves to, if it resolves,
    /// and the links of `/dev/disk/by-id`.
    pub fn for_path(
        path: &UnixPath,
        resolved: Option<UnixPath>,
        entries: &Vec<ByIdEntry>,
    ) -> (metadata: Self)
        ensures
            metadata.input_path@ == path@,
            metadata.canonical_path@ == canonical(path@, path_view(resolved)),
            forall|i: int|
                0 <= i < entries@.len() && ((#[trigger] entries@[i]).target matches Some(target)
                    && path::same_path(target@, metadata.canonical_path@))
                    ==> metadata.by_id_path is Some,
            metadata.canonical_path@ == (match resolved {
                Some(r) => r@,
                None => path@,
            }),
            metadata.by_id_path is None <==> forall|i: int|
                0 <= i < entries@.len() ==> !(#[trigger] entries@[i]).links_to(
                    metadata.canonical_path@,
                ),
            metadata.by_id_path matches Some(p) ==> exists|i: int|
                is_best(entries@, metadata.canonical_path@, i) && p@ == entries@[i].path@,
            metadata.label@ == device_label(path_view(metadata.by_id_path), path@),
    {
        let canonical_path = match resolved {
            Some(resolved) => resolved,
            None => path.clone(),
        };
        let by_id_path = best_by_id_path(entries, &canonical_path);
        let link_name = match &by_id_path {
            Some(link) => link.file_name(),
            None => None,
        };
        let label = match link_name {
            Some(name) => device_label_from_by_id(name.as_str()),
            None => match path.file_name() {
                Some(name) => name,
                None => "block-device".to_owned(),
            },
        };
        DeviceMetadata { input_path: path.clone(), canonical_path, by_id_path, label }
    }
}

/// Whether a character may stand in a file name.
pub open spec fn is_safe(c: char) -> bool {
    ||| 'a' <= c <= 'z'
    ||| 'A' <= c <= 'Z'
    ||| '0' <= c <= '9'
    ||| c == '.'
    ||| c == '-'
    ||| c == '_'
}

/// The character that stands for `c` in a file name.
pub open spec fn safe_char(c: char) -> char {
    if is_safe(c) {
        c
    } else {
        '_'
    }
}

/// `value` as part of a file name: an underscore for each character that may not stand there,
/// and a stand-in for nothing at all.
pub open spec fn safe_name(value: Seq<char>) -> Seq<char> {
    if value.len() == 0 {
        "block-device"@
    } else {
        value.map_values(|c: char| safe_char(c))
    }
}

/// `value` as part of a file name: an underscore for each character that may not stand there,
/// and a stand-in for nothing at all.
pub fn filename_safe(value: &str) -> (name: String)
    ensures
        name@ == safe_name(value@),
{
    let chars = text::chars_of(value);
    if chars.len() == 0 {
        return "block-device".to_owned();
    }
    let mut output = String::new();
    let mut i: usize = 0;
    while i < chars.len()
        invariant
            i <= chars@.len(),
            chars@ == value@,
            output@ == value@.take(i as int).map_values(|c: char| safe_char(c)),
        decreases chars@.len() - i,
    {
        let c = chars[i];
        if ('a' <= c && c <= 'z') || ('A' <= c && c <= 'Z') || ('0' <= c && c <= '9') || c == '.'
            || c == '-' || c == '_' {
            output.push(c);
        } else {
            output.push('_');
        }
        i = i + 1;
        assert(output@ =~= value@.take(i as int).map_values(|c: char| safe_char(c)));
    }
    assert(value@.take(value@.len() as int) =~= value@);
    output
}

/// The name of the graph of a device with this label, as text.
pub open spec fn default_svg_name(label: Seq<char>) -> Seq<char> {
    "block-benchie-"@ + safe_name(label) + ".svg"@
}

/// Where the graph goes unless the caller says otherwise: a file of the current directory that is
/// named after the device.
pub fn default_output_path(metadata: &DeviceMetadata) -> (path: UnixPath)
    ensures
        path@ == utf8::encode_utf8(default_svg_name(metadata.label@)),
{
    let mut name = "block-benchie-".to_owned();
    name.append(filename_safe(metadata.label.as_str()).as_str());
    name.append(".svg");
    UnixPath::from_text(name.as_str())
}

/// A name made safe is not empty and holds only characters that may stand in a file name.
pub proof fn law_safe_names_are_safe(value: Seq<char>)
    ensures
        safe_name(value).len() > 0,
        forall|i: int| 0 <= i < safe_name(value).len() ==> is_safe(#[trigger] safe_name(value)[i]),
{
    reveal_strlit("block-device");
}

/// A name made safe has a character for each one of the name: the same one if it is an ASCII
/// letter or digit, a full stop, a hyphen or an underscore, and else an underscore.
pub proof fn law_safe_names_keep_what_is_safe(value: Seq<char>, i: int)
    requires
        0 <= i < value.len(),
    ensures
        safe_name(value).len() == value.len(),
        ({
            let c = value[i];
            safe_name(value)[i] == (if ('a' <= c <= 'z') || ('A' <= c <= 'Z') || ('0' <= c <= '9')
                || c == '.' || c == '-' || c == '_' {
                c
            } else {
                '_'
            })
        }),
{
}

/// The default graph is named `block-benchie-`, the name made safe, and `.svg`; a label of nothing
/// but ASCII letters, digits, full stops, hyphens and underscores stands there as it is.
pub proof fn law_graphs_are_named_after_the_label(label: Seq<char>)
    ensures
        ({
            let name = default_svg_name(label);
            let end = name.len() - 4;
            &&& end >= 14
            &&& name.take(14) == "block-benchie-"@
            &&& name.skip(end) == ".svg"@
            &&& name.subrange(14, end) == safe_name(label)
            &&& label.len() > 0 && (forall|i: int|
                0 <= i < label.len() ==> {
                    ||| 'a' <= #[trigger] label[i] <= 'z'
                    ||| 'A' <= label[i] <= 'Z'
                    ||| '0' <= label[i] <= '9'
                    ||| label[i] == '.'
                    ||| label[i] == '-'
                    ||| label[i] == '_'
                }) ==> name.subrange(14, end) == label
            &&& label.len() == 0 ==> name.subrange(14, end) == "block-device"@
        }),
{
    reveal_strlit("block-benchie-");
    reveal_strlit(".svg");
    let name = default_svg_name(label);
    let end = name.len() - 4;
    assert(name.take(14) =~= "block-benchie-"@);
    assert(name.skip(end) =~= ".svg"@);
    assert(name.subrange(14, end) =~= safe_name(label));
    if label.len() > 0 && (forall|i: int|
        0 <= i < label.len() ==> {
            ||| 'a' <= #[trigger] label[i] <= 'z'
            ||| 'A' <= label[i] <= 'Z'
            ||| '0' <= label[i] <= '9'
            ||| label[i] == '.'
            ||| label[i] == '-'
            ||| label[i] == '_'
        }) {
        assert(safe_name(label) =~= label);
    }
}

/// A name that is safe already stays as it is, so making a name safe twice changes nothing.
pub proof fn law_making_safe_is_idempotent(value: Seq<char>)
    ensures
        safe_name(safe_name(value)) == safe_name(value),
{
    law_safe_names_are_safe(value);
    assert(safe_name(safe_name(value)) =~= safe_name(value));
}

pub(crate) proof fn lemma_graph_names_are_ascii(label: Seq<char>)
    ensures
        utf8::is_ascii_chars(default_svg_name(label)),
{
    reveal_strlit("block-benchie-");
    reveal_strlit(".svg");
    law_safe_names_are_safe(label);
    let stem = "block-benchie-"@ + safe_name(label);
    assert forall|i: int| 0 <= i < stem.len() implies is_safe(#[trigger] stem[i]) by {
        if i >= "block-benchie-"@.len() {
            assert(stem[i] == safe_name(label)[i - "block-benchie-"@.len()]);
        }
    }
}

/// The default graph is a plain file of the current directory, whatever the label holds, and the
/// report beside it has the same name but for the extension.
pub proof fn law_default_outputs(label: Seq<char>)
    ensures
        ({
            let svg = utf8::encode_utf8(default_svg_name(label));
            &&& path::file_name(svg) == Some(svg)
            &&& path::with_extension(svg, path::markdown_extension()) == utf8::encode_utf8(
                "block-benchie-"@ + safe_name(label) + ".md"@,
            )
        }),
{
    reveal_strlit("block-benchie-");
    reveal_strlit(".svg");
    reveal_strlit(".md");
    law_safe_names_are_safe(label);
    let name = default_svg_name(label);
    let stem = "block-benchie-"@ + safe_name(label);
    let md_name = stem + ".md"@;
    assert forall|i: int| 0 <= i < stem.len() implies is_safe(#[trigger] stem[i]) by {
        if i >= "block-benchie-"@.len() {
            assert(stem[i] == safe_name(label)[i - "block-benchie-"@.len()]);
        }
    }
    assert(utf8::is_ascii_chars(name));
    assert(utf8::is_ascii_chars(md_name));
    utf8::is_ascii_chars_encode_utf8(name);
    utf8::is_ascii_chars_encode_utf8(md_name);
    let svg = utf8::encode_utf8(name);
    let md = utf8::encode_utf8(md_name);
    assert forall|i: int| 0 <= i < svg.len() implies svg[i] != path::SLASH by {
        if i < stem.len() {
            assert(name[i] == stem[i]);
            assert(is_safe(stem[i]));
        }
    }
    path::lemma_plain_name(svg, stem.len());
    assert(path::with_extension(svg, path::markdown_extension()) =~= md);
}

} // verus!

//! The parts of an archive that carry their own encryption: the sections and the key area.

use crate::bytes::{load, store};
use crate::container::SECTION_KEY_INDEX;
use crate::crypto::{aes_ctr_apply, ctr_applied, ctr_keystream};
use vstd::prelude::*;

verus! {

/// One stretch of bytes encrypted with AES-CTR.
#[derive(Debug, Clone, Copy, PartialEq, Eq)]
pub struct CtrSection {
    /// Where the stretch starts.
    pub start: usize,
    /// Where the stretch ends.
    pub end: usize,
    /// The counter for its first byte.
    pub counter: [u8; 0x10],
}

impl CtrSection {
    /// Whether the stretch holds byte `p`.
    pub open spec fn covers(self, p: int) -> bool {
        self.start <= p < self.end
    }

    /// The stretch, moved `by` bytes on.
    pub open spec fn moved(self, by: usize) -> CtrSection {
        CtrSection {
            start: (self.start + by) as usize,
            end: (self.end + by) as usize,
            counter: self.counter,
        }
    }
}

/// Whether every section lies inside `len` bytes.
pub open spec fn sections_fit(sections: Seq<CtrSection>, len: int) -> bool {
    forall|i: int|
        0 <= i < sections.len() ==> (#[trigger] sections[i]).start <= sections[i].end <= len
}

/// What byte `p` is combined with: the keystream byte of every section that holds it.
pub open spec fn section_mask(key: Seq<u8>, sections: Seq<CtrSection>, p: int) -> u8
    decreases sections.len(),
{
    if sections.len() == 0 {
        0
    } else {
        let section = sections.last();
        section_mask(key, sections.drop_last(), p) ^ if section.covers(p) {
            ctr_keystream(key, section.counter@, p - section.start)
        } else {
            0
        }
    }
}

/// `data` with the keystream of every section laid over the bytes it holds.
pub open spec fn sections_applied(
    key: Seq<u8>,
    sections: Seq<CtrSection>,
    data: Seq<u8>,
) -> Seq<u8> {
    Seq::new(data.len(), |p: int| data[p] ^ section_mask(key, sections, p))
}

/// The four keys of a key area, one after the other.
pub open spec fn flattened(keys: [[u8; 0x10]; 4]) -> Seq<u8> {
    keys@[0]@ + keys@[1]@ + keys@[2]@ + keys@[3]@
}

/// The key of a flattened key area that the sections are encrypted with.
pub open spec fn section_key(area: Seq<u8>) -> Seq<u8> {
    area.subrange(SECTION_KEY_INDEX * 0x10, SECTION_KEY_INDEX * 0x10 + 0x10)
}

/// Lay the keystream of every section over the bytes it holds.
pub(crate) fn apply_sections(key: &[u8; 0x10], sections: &[CtrSection], data: &mut [u8])
    requires
        sections_fit(sections@, old(data)@.len() as int),
    ensures
        final(data)@ == sections_applied(key@, sections@, old(data)@),
{
    let ghost before = data@;
    proof {
        let none = sections@.take(0);
        assert forall|p: int| 0 <= p < before.len() implies sections_applied(key@, none, before)[p]
            == before[p] by {
            let byte = before[p];
            assert(byte ^ 0 == byte) by (bit_vector);
        }
        assert(sections_applied(key@, none, before) =~= before);
    }
    let mut index: usize = 0;
    while index < sections.len()
        invariant
            index <= sections@.len(),
            sections_fit(sections@, before.len() as int),
            data@ == sections_applied(key@, sections@.take(index as int), before),
        decreases sections@.len() - index,
    {
        let ghost previous = data@;
        let section = sections[index];
        assert(section == sections@[index as int]);
        apply_section(key, &section, data);
        proof {
            let done = sections@.take(index as int);
            let more = sections@.take(index + 1);
            assert(more.drop_last() =~= done);
            assert forall|p: int| 0 <= p < before.len() implies data@[p] == sections_applied(
                key@,
                more,
                before,
            )[p] by {
                let byte = before[p];
                let mask = section_mask(key@, done, p);
                let step = ctr_keystream(key@, section.counter@, p - section.start);
                assert((byte ^ mask) ^ step == byte ^ (mask ^ step)) by (bit_vector);
                assert(byte ^ (mask ^ 0) == byte ^ mask) by (bit_vector);
            }
            assert(data@ =~= sections_applied(key@, more, before));
        }
        index += 1;
    }
    assert(sections@.take(sections@.len() as int) =~= sections@);
}

/// Lay the keystream of one section over the bytes it holds.
fn apply_section(key: &[u8; 0x10], section: &CtrSection, data: &mut [u8])
    requires
        section.start <= section.end <= old(data)@.len(),
    ensures
        final(data)@.len() == old(data)@.len(),
        forall|p: int|
            0 <= p < old(data)@.len() ==> #[trigger] final(data)@[p] == if section.covers(p) {
                old(data)@[p] ^ ctr_keystream(key@, section.counter@, p - section.start)
            } else {
                old(data)@[p]
            },
{
    let (_, rest) = data.split_at_mut(section.start);
    let (stretch, _) = rest.split_at_mut(section.end - section.start);
    aes_ctr_apply(key, &section.counter, stretch);
}

/// Laying the same keystreams over the data twice gives it back.
pub proof fn law_sections_are_their_own_inverse(
    key: Seq<u8>,
    sections: Seq<CtrSection>,
    data: Seq<u8>,
)
    ensures
        sections_applied(key, sections, sections_applied(key, sections, data)) == data,
{
    let once = sections_applied(key, sections, data);
    assert forall|p: int| 0 <= p < data.len() implies sections_applied(key, sections, once)[p]
        == data[p] by {
        let byte = data[p];
        let mask = section_mask(key, sections, p);
        assert((byte ^ mask) ^ mask == byte) by (bit_vector);
    }
    assert(sections_applied(key, sections, once) =~= data);
}

/// A byte no section holds is left as it was.
pub proof fn law_bytes_outside_every_section_are_untouched(
    key: Seq<u8>,
    sections: Seq<CtrSection>,
    data: Seq<u8>,
    p: int,
)
    requires
        0 <= p < data.len(),
        forall|i: int| 0 <= i < sections.len() ==> !(#[trigger] sections[i]).covers(p),
    ensures
        sections_applied(key, sections, data)[p] == data[p],
    decreases sections.len(),
{
    let byte = data[p];
    assert(byte ^ 0 == byte) by (bit_vector);
    if sections.len() > 0 {
        let fewer = sections.drop_last();
        assert forall|i: int| 0 <= i < fewer.len() implies !(#[trigger] fewer[i]).covers(p) by {
            assert(fewer[i] == sections[i]);
        }
        law_bytes_outside_every_section_are_untouched(key, fewer, data, p);
        let mask = section_mask(key, fewer, p);
        assert(mask ^ 0 == mask) by (bit_vector);
    }
}

/// Moving the sections on by `by` bytes moves what they do to the data on by as much.
pub(crate) proof fn lemma_moved_mask(
    key: Seq<u8>,
    sections: Seq<CtrSection>,
    by: usize,
    len: int,
    p: int,
)
    requires
        sections_fit(sections, len),
        len + by <= usize::MAX,
    ensures
        section_mask(key, sections.map_values(|s: CtrSection| s.moved(by)), p + by) == section_mask(
            key,
            sections,
            p,
        ),
    decreases sections.len(),
{
    if sections.len() > 0 {
        let moved = sections.map_values(|s: CtrSection| s.moved(by));
        let fewer = sections.drop_last();
        assert forall|i: int| 0 <= i < fewer.len() implies (#[trigger] fewer[i]).start
            <= fewer[i].end <= len by {
            assert(fewer[i] == sections[i]);
        }
        lemma_moved_mask(key, fewer, by, len, p);
        assert(moved.drop_last() =~= fewer.map_values(|s: CtrSection| s.moved(by)));
        assert(sections.last() == sections[sections.len() - 1]);
    }
}

/// The four keys of a key area, one after the other.
pub(crate) fn flatten(keys: &[[u8; 0x10]; 4]) -> (area: [u8; 0x40])
    ensures
        area@ == flattened(*keys),
{
    let mut area = [0u8; 0x40];
    store(&mut area, 0, &keys[0]);
    store(&mut area, 0x10, &keys[1]);
    store(&mut area, 0x20, &keys[2]);
    store(&mut area, 0x30, &keys[3]);
    assert(area@ =~= flattened(*keys));
    area
}

/// The keys of a flattened key area, one by one.
pub(crate) fn unflatten(area: &[u8; 0x40]) -> (keys: [[u8; 0x10]; 4])
    ensures
        flattened(keys) == area@,
        keys@[SECTION_KEY_INDEX as int]@ == section_key(area@),
{
    let keys = [
        load::<0x10>(area, 0),
        load::<0x10>(area, 0x10),
        load::<0x10>(area, 0x20),
        load::<0x10>(area, 0x30),
    ];
    assert(flattened(keys) =~= area@);
    keys
}

/// One more section is one more keystream: the bytes it holds are what AES-CTR from its own counter
/// makes of them after every section before it, and no other byte changes. Without a section nothing
/// does.
pub proof fn law_sections_are_applied_one_after_the_other(
    key: Seq<u8>,
    sections: Seq<CtrSection>,
    section: CtrSection,
    data: Seq<u8>,
)
    requires
        section.start <= section.end <= data.len(),
    ensures
        sections_applied(key, seq![], data) == data,
        ({
            let before = sections_applied(key, sections, data);
            let after = sections_applied(key, sections.push(section), data);
            &&& after.len() == data.len()
            &&& after.subrange(section.start as int, section.end as int) == ctr_applied(
                key,
                section.counter@,
                before.subrange(section.start as int, section.end as int),
            )
            &&& forall|p: int|
                0 <= p < data.len() && !(section.start <= p < section.end) ==> #[trigger] after[p]
                    == before[p]
        }),
{
    let before = sections_applied(key, sections, data);
    let after = sections_applied(key, sections.push(section), data);
    assert(sections.push(section).drop_last() =~= sections);
    assert forall|p: int| 0 <= p < data.len() implies #[trigger] after[p] == if section.start <= p
        < section.end {
        before[p] ^ ctr_keystream(key, section.counter@, p - section.start)
    } else {
        before[p]
    } by {
        let byte = data[p];
        let mask = section_mask(key, sections, p);
        let step = ctr_keystream(key, section.counter@, p - section.start);
        assert((byte ^ mask) ^ step == byte ^ (mask ^ step)) by (bit_vector);
        assert(byte ^ (mask ^ 0) == byte ^ mask) by (bit_vector);
    }
    assert forall|p: int| 0 <= p < data.len() implies sections_applied(key, seq![], data)[p]
        == data[p] by {
        let byte = data[p];
        assert(byte ^ 0 == byte) by (bit_vector);
    }
    assert(sections_applied(key, seq![], data) =~= data);
    assert(after.subrange(section.start as int, section.end as int) =~= ctr_applied(
        key,
        section.counter@,
        before.subrange(section.start as int, section.end as int),
    ));
}

/// Each of several sections that do not overlap holds exactly what AES-CTR from its own counter makes
/// of its own bytes, as if it were the only one, and bytes no section holds stay as they are.
pub proof fn law_each_section_is_encrypted_from_its_own_counter(
    key: Seq<u8>,
    sections: Seq<CtrSection>,
    data: Seq<u8>,
)
    requires
        forall|i: int|
            0 <= i < sections.len() ==> (#[trigger] sections[i]).start <= sections[i].end
                <= data.len(),
        forall|i: int, j: int|
            0 <= i < j < sections.len() ==> (#[trigger] sections[i]).end <= (
            #[trigger] sections[j]).start || sections[j].end <= sections[i].start,
    ensures
        sections_applied(key, sections, data).len() == data.len(),
        forall|i: int|
            0 <= i < sections.len() ==> sections_applied(key, sections, data).subrange(
                (#[trigger] sections[i]).start as int,
                sections[i].end as int,
            ) == ctr_applied(
                key,
                sections[i].counter@,
                data.subrange(sections[i].start as int, sections[i].end as int),
            ),
        forall|p: int|
            0 <= p < data.len() && (forall|i: int|
                0 <= i < sections.len() ==> !((#[trigger] sections[i]).start <= p
                    < sections[i].end)) ==> #[trigger] sections_applied(key, sections, data)[p]
                == data[p],
    decreases sections.len(),
{
    let whole = sections_applied(key, sections, data);
    if sections.len() == 0 {
        assert(sections =~= seq![]);
        assert forall|p: int| 0 <= p < data.len() implies #[trigger] whole[p] == data[p] by {
            let byte = data[p];
            assert(byte ^ 0 == byte) by (bit_vector);
        }
    } else {
        let fewer = sections.drop_last();
        let last = sections.last();
        assert(last == sections[sections.len() - 1]);
        assert(forall|i: int| 0 <= i < fewer.len() ==> #[trigger] fewer[i] == sections[i]);
        assert forall|i: int| 0 <= i < fewer.len() implies (#[trigger] fewer[i]).start
            <= fewer[i].end <= data.len() by {
            assert(fewer[i] == sections[i]);
        }
        assert forall|i: int, j: int| 0 <= i < j < fewer.len() implies (#[trigger] fewer[i]).end <= (
        #[trigger] fewer[j]).start || fewer[j].end <= fewer[i].start by {
            assert(fewer[i] == sections[i] && fewer[j] == sections[j]);
        }
        law_each_section_is_encrypted_from_its_own_counter(key, fewer, data);
        law_sections_are_applied_one_after_the_other(key, fewer, last, data);
        assert(fewer.push(last) =~= sections);
        let before = sections_applied(key, fewer, data);
        assert forall|i: int| 0 <= i < sections.len() implies whole.subrange(
            (#[trigger] sections[i]).start as int,
            sections[i].end as int,
        ) == ctr_applied(
            key,
            sections[i].counter@,
            data.subrange(sections[i].start as int, sections[i].end as int),
        ) by {
            let start = sections[i].start as int;
            let end = sections[i].end as int;
            if i < fewer.len() {
                assert(fewer[i] == sections[i]);
                assert(sections[i].end <= last.start || last.end <= sections[i].start);
                assert(whole.subrange(start, end) =~= before.subrange(start, end));
            } else {
                assert forall|p: int| start <= p < end implies #[trigger] before[p] == data[p] by {
                    assert forall|j: int| 0 <= j < fewer.len() implies !((#[trigger] fewer[j]).start
                        <= p < fewer[j].end) by {
                        assert(fewer[j] == sections[j]);
                        assert(sections[j].end <= sections[i].start || sections[i].end
                            <= sections[j].start);
                    }
                }
                assert(before.subrange(start, end) =~= data.subrange(start, end));
            }
        }
        assert forall|p: int|
            0 <= p < data.len() && (forall|i: int|
                0 <= i < sections.len() ==> !((#[trigger] sections[i]).start <= p
                    < sections[i].end)) implies #[trigger] whole[p] == data[p] by {
            assert forall|j: int| 0 <= j < fewer.len() implies !((#[trigger] fewer[j]).start <= p
                < fewer[j].end) by {
                assert(fewer[j] == sections[j]);
            }
            assert(whole[p] == before[p]);
        }
    }
}

/// A key area is its four keys in order, and the sections are encrypted with the third of them.
pub proof fn law_a_key_area_is_its_keys_in_order(keys: [[u8; 0x10]; 4])
    ensures
        flattened(keys).len() == 0x40,
        forall|i: int|
            0 <= i < 4 ==> flattened(keys).subrange(16 * i, 16 * i + 16) == (#[trigger] keys@[i])@,
        section_key(flattened(keys)) == keys@[2]@,
{
    let area = flattened(keys);
    assert(area.subrange(0, 16) =~= keys@[0]@);
    assert(area.subrange(16, 32) =~= keys@[1]@);
    assert(area.subrange(32, 48) =~= keys@[2]@);
    assert(area.subrange(48, 64) =~= keys@[3]@);
    assert forall|i: int| 0 <= i < 4 implies area.subrange(16 * i, 16 * i + 16) == (
    #[trigger] keys@[i])@ by {
        assert(i == 0 || i == 1 || i == 2 || i == 3);
    }
}

} // verus!

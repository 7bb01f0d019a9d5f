//! PDO subsystem: per-slot configuration objects, incremental updates from
//! object-dictionary writes, construction by scanning the dictionary's PDO
//! parameter ranges, the transmission-trigger policy, and transmit-frame
//! generation through the bit-packing codec.

use vstd::prelude::*;

use crate::cob_map::{cob_map_contents, CobIndexMap};
use crate::codec::{
    be_bytes_of, merged_value, pack_data, total_bits, vec_to_u64,
};
use crate::dict::{key_of, spec_u16, spec_u32, spec_u8, spec_val, ErrorCode, ObjectDictionary, Variable};
use crate::frame::{CanFrame, FrameView};
use crate::node::NodeEvent;

verus! {

/// Direction of a PDO slot.
#[derive(PartialEq, Eq, Structural, Clone, Copy, Debug)]
pub enum PdoType {
    TPDO,
    RPDO,
}

/// One configured PDO slot.
pub struct PdoObject {
    pub pdo_type: PdoType,
    /// Clear bit 31 of the communication word means the slot is valid.
    pub is_pdo_valid: bool,
    /// Legacy flag kept for dictionary compatibility, not acted upon.
    pub _not_used_rtr_allowed: bool,
    /// Legacy flag kept for dictionary compatibility, not acted upon.
    pub _not_used_is_29bit_can_id: bool,
    pub largest_sub_index: u8,
    pub cob_id: u16,
    pub transmission_type: u8,
    /// Reserved for future rate limiting, not enforced by this core.
    pub inhibit_time: u16,
    pub event_timer: u16,
    pub num_of_map_objs: u8,
    /// (dictionary index, sub-index, bit-length) triples; position 0 unused.
    pub mappings: Vec<(u16, u8, u8)>,
}

/// Abstract value of one PDO slot.
#[verifier::ext_equal]
pub struct PdoView {
    pub pdo_type: PdoType,
    pub is_pdo_valid: bool,
    pub rtr_allowed: bool,
    pub is_29bit_can_id: bool,
    pub largest_sub_index: u8,
    pub cob_id: u16,
    pub transmission_type: u8,
    pub inhibit_time: u16,
    pub event_timer: u16,
    pub num_of_map_objs: u8,
    pub mappings: Seq<(u16, u8, u8)>,
}

impl View for PdoObject {
    type V = PdoView;

    open spec fn view(&self) -> PdoView {
        PdoView {
            pdo_type: self.pdo_type,
            is_pdo_valid: self.is_pdo_valid,
            rtr_allowed: self._not_used_rtr_allowed,
            is_29bit_can_id: self._not_used_is_29bit_can_id,
            largest_sub_index: self.largest_sub_index,
            cob_id: self.cob_id,
            transmission_type: self.transmission_type,
            inhibit_time: self.inhibit_time,
            event_timer: self.event_timer,
            num_of_map_objs: self.num_of_map_objs,
            mappings: self.mappings@,
        }
    }
}

/// The mapping list is sized `count + 1` once a mapping count has been
/// configured; a freshly built slot has no list at all.
pub open spec fn pdo_view_wf(p: PdoView) -> bool {
    p.mappings.len() == p.num_of_map_objs + 1 || (p.num_of_map_objs == 0 && p.mappings.len()
        == 0)
}

/// Effect of one communication-parameter write on a slot: sub-index 1
/// carries the 32-bit word holding the invalid flag (bit 31), the two
/// legacy flags (bits 30 and 29) and the COB-ID (bits 0-15); sub-index 0
/// sets the largest sub-index, 2 the transmission type, 3 the inhibit time
/// and 5 the event timer. Other sub-indices change nothing.
pub open spec fn spec_update_comm_params(p: PdoView, sub_index: u8, data: Seq<u8>) -> PdoView {
    let q = if sub_index == 1 {
        let t = spec_u32(data);
        PdoView {
            is_pdo_valid: (t >> 31) & 1 == 0,
            rtr_allowed: (t >> 30) & 1 == 1,
            is_29bit_can_id: (t >> 29) & 1 == 1,
            cob_id: (t & 0xFFFF) as u16,
            ..p
        }
    } else {
        p
    };
    match sub_index {
        0 => PdoView { largest_sub_index: spec_u8(data), ..q },
        2 => PdoView { transmission_type: spec_u8(data), ..q },
        3 => PdoView { inhibit_time: spec_u16(data), ..q },
        5 => PdoView { event_timer: spec_u16(data), ..q },
        _ => q,
    }
}

/// The mapping list resized to `n` entries: truncated, or padded with
/// zeroed triples.
pub open spec fn resize_mappings(s: Seq<(u16, u8, u8)>, n: nat) -> Seq<(u16, u8, u8)> {
    if s.len() >= n {
        s.take(n as int)
    } else {
        s + Seq::new((n - s.len()) as nat, |j: int| (0u16, 0u8, 0u8))
    }
}

/// Effect of one mapping-parameter write on a slot: sub-index 0 sets the
/// mapping count and resizes the list to `count + 1` zero-filled entries
/// beyond the kept prefix; sub-indices up to the configured count decode a
/// 32-bit word into (index, sub-index, bit-length); writes beyond the count
/// change nothing.
pub open spec fn spec_update_map_params(p: PdoView, sub_index: u8, data: Seq<u8>) -> PdoView {
    if sub_index == 0 {
        let t = spec_u8(data);
        PdoView {
            num_of_map_objs: t,
            mappings: resize_mappings(p.mappings, t as nat + 1),
            ..p
        }
    } else if sub_index <= p.num_of_map_objs {
        let t = spec_u32(data);
        PdoView {
            mappings: p.mappings.update(
                sub_index as int,
                (((t >> 16) as u16), (((t >> 8) & 0xFF) as u8), ((t & 0xFF) as u8)),
            ),
            ..p
        }
    } else {
        p
    }
}

/// Applying the same communication-parameter write twice leaves the slot
/// exactly as applying it once does.
pub proof fn lemma_comm_update_idempotent(p: PdoView, sub_index: u8, data: Seq<u8>)
    ensures
        spec_update_comm_params(spec_update_comm_params(p, sub_index, data), sub_index, data)
            == spec_update_comm_params(p, sub_index, data),
{
    assert(spec_update_comm_params(
        spec_update_comm_params(p, sub_index, data),
        sub_index,
        data,
    ) =~= spec_update_comm_params(p, sub_index, data));
}

impl PdoObject {
    /// Slot well-formedness: see `pdo_view_wf`.
    pub open spec fn wf(self) -> bool {
        pdo_view_wf(self@)
    }

    /// Applies one communication-parameter dictionary write to this slot.
    pub fn update_comm_params(&mut self, var: &Variable)
        ensures
            final(self)@ == spec_update_comm_params(old(self)@, var.sub_index, var.data@),
            final(self).wf() == old(self).wf(),
    {
        if var.sub_index == 1 {
            let t: u32 = var.val_u32();
            self.is_pdo_valid = (t >> 31) & 1 == 0;
            self._not_used_rtr_allowed = (t >> 30) & 1 == 1;
            self._not_used_is_29bit_can_id = (t >> 29) & 1 == 1;
            self.cob_id = (t & 0xFFFF) as u16;
        }
        if var.sub_index == 0 {
            self.largest_sub_index = var.val_u8();
        } else if var.sub_index == 2 {
            self.transmission_type = var.val_u8();
        } else if var.sub_index == 3 {
            self.inhibit_time = var.val_u16();
        } else if var.sub_index == 5 {
            self.event_timer = var.val_u16();
        }
    }

    /// Applies one mapping-parameter dictionary write to this slot.
    pub fn update_map_params(&mut self, var: &Variable)
        requires
            old(self).wf(),
        ensures
            final(self)@ == spec_update_map_params(old(self)@, var.sub_index, var.data@),
            final(self).wf(),
    {
        let ghost oldm: Seq<(u16, u8, u8)> = self.mappings@;
        if var.sub_index == 0 {
            let t = var.val_u8();
            self.num_of_map_objs = t;
            let target: usize = t as usize + 1;
            let keep: usize = if self.mappings.len() < target {
                self.mappings.len()
            } else {
                target
            };
            let mut m: Vec<(u16, u8, u8)> = Vec::new();
            let mut i: usize = 0;
            while i < keep
                invariant
                    i <= keep,
                    keep <= oldm.len(),
                    keep <= target,
                    oldm == self.mappings@,
                    m@ =~= oldm.take(i as int),
                decreases keep - i,
            {
                m.push(self.mappings[i]);
                i = i + 1;
            }
            while m.len() < target
                invariant
                    keep <= m@.len() <= target,
                    m@ =~= oldm.take(keep as int) + Seq::new(
                        (m@.len() - keep) as nat,
                        |j: int| (0u16, 0u8, 0u8),
                    ),
                decreases target - m@.len(),
            {
                m.push((0u16, 0u8, 0u8));
            }
            self.mappings = m;
            proof {
                if oldm.len() >= target {
                    assert(self.mappings@ =~= oldm.take(target as int));
                } else {
                    assert(oldm.take(keep as int) =~= oldm);
                }
                assert(self.mappings@ =~= resize_mappings(oldm, target as nat));
            }
        } else if var.sub_index <= self.num_of_map_objs {
            let t: u32 = var.val_u32();
            let sub = var.sub_index as usize;
            self.mappings[sub] = (
                #[verifier::truncate] ((t >> 16) as u16),
                #[verifier::truncate] (((t >> 8) & 0xFF) as u8),
                #[verifier::truncate] ((t & 0xFF) as u8),
            );
        }
        proof {
            assert(self@ =~= spec_update_map_params(old(self)@, var.sub_index, var.data@));
        }
    }
}

/// Abstract value of the whole PDO table.
#[verifier::ext_equal]
pub struct PdoTableView {
    pub rpdos: Seq<PdoView>,
    pub tpdos: Seq<PdoView>,
    pub cob_map: Map<u32, usize>,
}

/// The four receive slots, four transmit slots and the COB-ID lookup.
pub struct PdoObjects {
    pub rpdos: Vec<PdoObject>,
    pub tpdos: Vec<PdoObject>,
    pub cob_to_index: CobIndexMap,
}

impl View for PdoObjects {
    type V = PdoTableView;

    open spec fn view(&self) -> PdoTableView {
        PdoTableView {
            rpdos: self.rpdos@.map_values(|p: PdoObject| p@),
            tpdos: self.tpdos@.map_values(|p: PdoObject| p@),
            cob_map: cob_map_contents(self.cob_to_index),
        }
    }
}

/// Effect of one dictionary write on the PDO table: the high byte of the
/// written index selects receive/transmit and communication/mapping
/// parameters, the low nibble the slot; slots beyond the four configured
/// ones, and unrelated indices, change nothing. A receive slot's COB-ID
/// write also records the new COB-ID in the lookup table.
pub open spec fn spec_update_pdos(
    v: PdoTableView,
    index: u16,
    sub_index: u8,
    data: Seq<u8>,
) -> PdoTableView {
    let t = index >> 8;
    let x = (index & 0xF) as int;
    if x >= 4 {
        v
    } else if t == 0x14 {
        let p2 = spec_update_comm_params(v.rpdos[x], sub_index, data);
        let cm = if sub_index == 1 {
            v.cob_map.insert(p2.cob_id as u32, x as usize)
        } else {
            v.cob_map
        };
        PdoTableView { rpdos: v.rpdos.update(x, p2), cob_map: cm, ..v }
    } else if t == 0x16 {
        PdoTableView {
            rpdos: v.rpdos.update(x, spec_update_map_params(v.rpdos[x], sub_index, data)),
            ..v
        }
    } else if t == 0x18 {
        PdoTableView {
            tpdos: v.tpdos.update(x, spec_update_comm_params(v.tpdos[x], sub_index, data)),
            ..v
        }
    } else if t == 0x1A {
        PdoTableView {
            tpdos: v.tpdos.update(x, spec_update_map_params(v.tpdos[x], sub_index, data)),
            ..v
        }
    } else {
        v
    }
}

/// A freshly built receive slot.
pub open spec fn spec_default_rpdo() -> PdoView {
    PdoView {
        pdo_type: PdoType::RPDO,
        is_pdo_valid: false,
        rtr_allowed: false,
        is_29bit_can_id: false,
        largest_sub_index: 5,
        cob_id: 0x202,
        transmission_type: 0x01,
        inhibit_time: 0,
        event_timer: 0,
        num_of_map_objs: 0,
        mappings: Seq::empty(),
    }
}

/// A freshly built transmit slot.
pub open spec fn spec_default_tpdo() -> PdoView {
    PdoView {
        pdo_type: PdoType::TPDO,
        is_pdo_valid: false,
        rtr_allowed: false,
        is_29bit_can_id: false,
        largest_sub_index: 5,
        cob_id: 0x180,
        transmission_type: 0x01,
        inhibit_time: 0,
        event_timer: 0,
        num_of_map_objs: 0,
        mappings: Seq::empty(),
    }
}

/// The PDO table before any dictionary entry has been applied.
pub open spec fn spec_default_table() -> PdoTableView {
    PdoTableView {
        rpdos: Seq::new(4, |i: int| spec_default_rpdo()),
        tpdos: Seq::new(4, |i: int| spec_default_tpdo()),
        cob_map: Map::empty(),
    }
}

fn default_pdo(pdo_type: PdoType, cob_id: u16) -> (r: PdoObject)
    ensures
        r@ == (PdoView { pdo_type, cob_id, ..spec_default_rpdo() }),
{
    PdoObject {
        pdo_type,
        is_pdo_valid: false,
        _not_used_rtr_allowed: false,
        _not_used_is_29bit_can_id: false,
        largest_sub_index: 5,
        cob_id,
        transmission_type: 0x01,
        inhibit_time: 0,
        event_timer: 0,
        num_of_map_objs: 0,
        mappings: Vec::new(),
    }
}

/// The i-th dictionary index probed while building the table: the four
/// receive communication bases 0x1400-0x1403, then 0x1600-0x1603,
/// 0x1800-0x1803 and 0x1A00-0x1A03.
pub open spec fn scan_index(i: nat) -> u16 {
    (0x1400 + 0x200 * (i / 4) + i % 4) as u16
}

/// One probe of the scan: apply the entry at (index, sub) when present.
pub open spec fn spec_apply_entry(
    v: PdoTableView,
    od: Map<u64, Seq<u8>>,
    index: u16,
    sub_index: u8,
) -> PdoTableView {
    if od.contains_key(key_of(index, sub_index)) {
        spec_update_pdos(v, index, sub_index, od[key_of(index, sub_index)])
    } else {
        v
    }
}

/// Probes of sub-indices 1..=count of one dictionary index, in order.
pub open spec fn spec_apply_subs(
    v: PdoTableView,
    od: Map<u64, Seq<u8>>,
    index: u16,
    count: nat,
) -> PdoTableView
    decreases count,
{
    if count == 0 {
        v
    } else {
        spec_apply_entry(
            spec_apply_subs(v, od, index, (count - 1) as nat),
            od,
            index,
            count as u8,
        )
    }
}

/// Scan of one dictionary index: its sub-index 0 names the largest present
/// sub-index; each present sub-index up to that count is applied. An absent
/// index is skipped without error.
pub open spec fn spec_apply_index(
    v: PdoTableView,
    od: Map<u64, Seq<u8>>,
    index: u16,
) -> PdoTableView {
    if od.contains_key(key_of(index, 0)) {
        let v1 = spec_update_pdos(v, index, 0, od[key_of(index, 0)]);
        spec_apply_subs(v1, od, index, spec_u8(od[key_of(index, 0)]) as nat)
    } else {
        v
    }
}

/// The table obtained after scanning the first `n` of the sixteen probed
/// dictionary indices.
pub open spec fn spec_scan(v: PdoTableView, od: Map<u64, Seq<u8>>, n: nat) -> PdoTableView
    decreases n,
{
    if n == 0 {
        v
    } else {
        spec_apply_index(spec_scan(v, od, (n - 1) as nat), od, scan_index((n - 1) as nat))
    }
}

impl PdoObjects {
    /// Four slots each way, all well-formed.
    pub open spec fn wf(self) -> bool {
        &&& self.rpdos@.len() == 4
        &&& self.tpdos@.len() == 4
        &&& forall|i: int| 0 <= i < 4 ==> (#[trigger] self.rpdos@[i]).wf()
        &&& forall|i: int| 0 <= i < 4 ==> (#[trigger] self.tpdos@[i]).wf()
    }

    /// Routes one dictionary write to the slot it configures.
    pub fn update(&mut self, var: &Variable)
        requires
            old(self).wf(),
        ensures
            final(self).wf(),
            final(self)@ == spec_update_pdos(old(self)@, var.index, var.sub_index, var.data@),
    {
        let idx = var.index;
        let t = idx >> 8;
        let x = (idx & 0xF) as usize;
        if x >= 4 {
            return ;
        }
        let ghost oldv: PdoTableView = self@;
        if t == 0x14 {
            let mut p = self.rpdos.remove(x);
            p.update_comm_params(var);
            if var.sub_index == 1 {
                self.cob_to_index.insert(p.cob_id as u32, x);
            }
            self.rpdos.insert(x, p);
            proof {
                assert(self.rpdos@.map_values(|q: PdoObject| q@) =~= oldv.rpdos.update(
                    x as int,
                    p@,
                ));
                assert(self@ =~= spec_update_pdos(oldv, var.index, var.sub_index, var.data@));
            }
        } else if t == 0x16 {
            let mut p = self.rpdos.remove(x);
            p.update_map_params(var);
            self.rpdos.insert(x, p);
            proof {
                assert(self.rpdos@.map_values(|q: PdoObject| q@) =~= oldv.rpdos.update(
                    x as int,
                    p@,
                ));
                assert(self@ =~= spec_update_pdos(oldv, var.index, var.sub_index, var.data@));
            }
        } else if t == 0x18 {
            let mut p = self.tpdos.remove(x);
            p.update_comm_params(var);
            self.tpdos.insert(x, p);
            proof {
                assert(self.tpdos@.map_values(|q: PdoObject| q@) =~= oldv.tpdos.update(
                    x as int,
                    p@,
                ));
                assert(self@ =~= spec_update_pdos(oldv, var.index, var.sub_index, var.data@));
            }
        } else if t == 0x1A {
            let mut p = self.tpdos.remove(x);
            p.update_map_params(var);
            self.tpdos.insert(x, p);
            proof {
                assert(self.tpdos@.map_values(|q: PdoObject| q@) =~= oldv.tpdos.update(
                    x as int,
                    p@,
                ));
                assert(self@ =~= spec_update_pdos(oldv, var.index, var.sub_index, var.data@));
            }
        }
    }

    /// Builds the table by scanning the dictionary's PDO parameter ranges.
    pub fn new(od: &ObjectDictionary) -> (r: PdoObjects)
        requires
            od.wf(),
        ensures
            r.wf(),
            r@ == spec_scan(spec_default_table(), od@, 16),
    {
        let mut rpdos: Vec<PdoObject> = Vec::new();
        let mut tpdos: Vec<PdoObject> = Vec::new();
        let mut s: usize = 0;
        while s < 4
            invariant
                s <= 4,
                rpdos@.len() == s,
                tpdos@.len() == s,
                forall|i: int| 0 <= i < s ==> (#[trigger] rpdos@[i])@ == spec_default_rpdo(),
                forall|i: int| 0 <= i < s ==> (#[trigger] tpdos@[i])@ == spec_default_tpdo(),
            decreases 4 - s,
        {
            rpdos.push(default_pdo(PdoType::RPDO, 0x202));
            tpdos.push(default_pdo(PdoType::TPDO, 0x180));
            s = s + 1;
        }
        let mut res = PdoObjects { rpdos, tpdos, cob_to_index: CobIndexMap::new() };
        proof {
            assert(res@.rpdos =~= spec_default_table().rpdos);
            assert(res@.tpdos =~= spec_default_table().tpdos);
            assert(res@ =~= spec_default_table());
        }
        let mut i: usize = 0;
        while i < 16
            invariant
                od.wf(),
                i <= 16,
                res.wf(),
                res@ == spec_scan(spec_default_table(), od@, i as nat),
            decreases 16 - i,
        {
            let base: u16 = 0x1400 + 0x200 * ((i as u16) / 4) + ((i as u16) % 4);
            proof {
                assert(base == scan_index(i as nat));
            }
            match od.get_variable(base, 0) {
                Ok(var0) => {
                    let len: usize = var0.val_u8() as usize;
                    res.update(var0);
                    let ghost v1: PdoTableView = res@;
                    let mut k: usize = 1;
                    while k <= len
                        invariant
                            od.wf(),
                            1 <= k <= len + 1,
                            len <= 255,
                            res.wf(),
                            res@ == spec_apply_subs(v1, od@, base, (k - 1) as nat),
                        decreases len + 1 - k,
                    {
                        match od.get_variable(base, k as u8) {
                            Ok(vk) => {
                                res.update(vk);
                            },
                            Err(_) => {},
                        }
                        proof {
                            assert((k as nat) as u8 == k as u8);
                        }
                        k = k + 1;
                    }
                },
                Err(_) => {},
            }
            i = i + 1;
        }
        res
    }

    /// Receive-side matching hook: the slot position configured for a
    /// COB-ID, if one was recorded.
    pub fn rpdo_index_of(&self, cob_id: u32) -> (r: Option<usize>)
        ensures
            match r {
                Some(slot) => self@.cob_map.contains_key(cob_id) && self@.cob_map[cob_id]
                    == slot,
                None => !self@.cob_map.contains_key(cob_id),
            },
    {
        self.cob_to_index.get(cob_id)
    }
}

/// The transmission-trigger policy, as a mathematical function.
///
/// On the synchronous (SYNC) cause a slot fires exactly when its transmission
/// type is cyclic (`1..=240`) and the SYNC counter is a multiple of it. On an
/// asynchronous cause, a `NodeStart` event always fires; otherwise the slot
/// fires exactly when its transmission type is event-driven (`0xFE`/`0xFF`),
/// its event-timer period is non-zero, and the event counter is a multiple of
/// that period.
pub open spec fn spec_should_trigger(
    is_sync: bool,
    event: NodeEvent,
    transmission_type: u32,
    event_timer_period: u32,
    count: u32,
) -> bool {
    if is_sync {
        1 <= transmission_type <= 240 && count % transmission_type == 0
    } else {
        event == NodeEvent::NodeStart || (
        (transmission_type == 0xFE || transmission_type == 0xFF) && event_timer_period != 0
            && count % event_timer_period == 0)
    }
}

/// Decides whether one PDO slot must fire on this evaluation pass.
pub fn should_trigger_pdo(
    is_sync: bool,
    event: NodeEvent,
    transmission_type: u32,
    event_times: u32,
    count: u32,
) -> (r: bool)
    ensures
        r == spec_should_trigger(is_sync, event, transmission_type, event_times, count),
{
    if is_sync {
        if transmission_type == 0 || transmission_type > 240 || count % transmission_type != 0 {
            return false;
        }
    } else {
        match event {
            NodeEvent::NodeStart => {
                return true;
            },
            _ => {},
        }
        if transmission_type != 0xFE && transmission_type != 0xFF {
            return false;
        } else if event_times == 0 || count % event_times != 0 {
            return false;
        }
    }
    true
}

/// The (value, bit-length) pairs mapped by entries 1..=count of a mapping
/// list: `None` when a referenced dictionary entry is absent or does not
/// fit one 64-bit value.
pub open spec fn spec_mapped_pairs(
    od: Map<u64, Seq<u8>>,
    mappings: Seq<(u16, u8, u8)>,
    count: nat,
) -> Option<Seq<(u64, u8)>>
    decreases count,
{
    if count == 0 {
        Some(Seq::empty())
    } else {
        match spec_mapped_pairs(od, mappings, (count - 1) as nat) {
            None => None,
            Some(s) => {
                let m = mappings[count as int];
                let k = key_of(m.0, m.1);
                if od.contains_key(k) && od[k].len() <= 8 {
                    Some(s.push(((spec_val(od[k], 8) as u64), m.2)))
                } else {
                    None
                }
            },
        }
    }
}

proof fn lemma_mapped_pairs_none_mono(
    od: Map<u64, Seq<u8>>,
    mappings: Seq<(u16, u8, u8)>,
    k: nat,
    n: nat,
)
    requires
        k <= n,
        spec_mapped_pairs(od, mappings, k) is None,
    ensures
        spec_mapped_pairs(od, mappings, n) is None,
    decreases n,
{
    if n > k {
        lemma_mapped_pairs_none_mono(od, mappings, k, (n - 1) as nat);
    }
}

/// The transmit frame a slot's configuration renders to: its COB-ID and
/// the packed payload of its mapped values; `None` when a mapped entry is
/// absent, oversized, or the declared widths exceed one frame payload.
pub open spec fn spec_gen_frame(
    od: Map<u64, Seq<u8>>,
    cob_id: u16,
    num: u8,
    mappings: Seq<(u16, u8, u8)>,
) -> Option<FrameView> {
    match spec_mapped_pairs(od, mappings, num as nat) {
        Some(pairs) => if total_bits(pairs) <= 64 {
            Some(
                FrameView {
                    cob_id,
                    data: be_bytes_of(merged_value(pairs), (total_bits(pairs) + 7) / 8),
                },
            )
        } else {
            None
        },
        None => None,
    }
}

/// Renders one transmit slot into a CAN frame: reads each mapped dictionary
/// entry, packs the (value, bit-length) pairs in mapping order, and
/// addresses the payload with the slot's COB-ID.
pub fn gen_pdo_frame(
    od: &ObjectDictionary,
    cob_id: u16,
    num_of_map_objs: u8,
    mappings: &Vec<(u16, u8, u8)>,
) -> (r: Result<CanFrame, ErrorCode>)
    requires
        od.wf(),
        num_of_map_objs == 0 || num_of_map_objs < mappings@.len(),
    ensures
        match r {
            Ok(f) => spec_gen_frame(od@, cob_id, num_of_map_objs, mappings@) == Some(f@),
            Err(e) => spec_gen_frame(od@, cob_id, num_of_map_objs, mappings@) is None && e
                == ErrorCode::DictionaryAccessError,
        },
{
    let mut t: Vec<(u64, u8)> = Vec::new();
    let num = num_of_map_objs as usize;
    let mut i: usize = 1;
    while i <= num
        invariant
            od.wf(),
            num == num_of_map_objs as nat,
            num == 0 || num < mappings@.len(),
            1 <= i <= num + 1,
            t@.len() == i - 1,
            spec_mapped_pairs(od@, mappings@, (i - 1) as nat) == Some(t@),
        decreases num + 1 - i,
    {
        let (mi, ms, mb) = mappings[i];
        match od.get_variable(mi, ms) {
            Ok(v) => {
                if v.data.len() > 8 {
                    proof {
                        lemma_mapped_pairs_none_mono(od@, mappings@, i as nat, num as nat);
                    }
                    return Err(ErrorCode::DictionaryAccessError);
                }
                let value: u64 = vec_to_u64(&v.data);
                proof {
                    assert(crate::dict::tail_bytes(v.data@, 8) =~= v.data@);
                }
                t.push((value, mb));
            },
            Err(_) => {
                proof {
                    lemma_mapped_pairs_none_mono(od@, mappings@, i as nat, num as nat);
                }
                return Err(ErrorCode::DictionaryAccessError);
            },
        }
        i = i + 1;
    }
    let mut total: u32 = 0;
    let n = t.len();
    let mut j: usize = 0;
    proof {
        assert(t@.take(0) =~= Seq::<(u64, u8)>::empty());
    }
    while j < n
        invariant
            n == t@.len() <= 255,
            j <= n,
            total as nat == total_bits(t@.take(j as int)),
            total <= 255 * 255,
        decreases n - j,
    {
        proof {
            assert(t@.take(j + 1).drop_last() =~= t@.take(j as int));
            assert(crate::codec::widths_of(t@.take(j + 1)).drop_last()
                =~= crate::codec::widths_of(t@.take(j as int)));
            assert(crate::codec::widths_of(t@.take(j + 1)).last() == t@[j as int].1);
            lemma_total_bits_bound(t@, j as int);
            lemma_total_bits_bound(t@, j + 1);
        }
        total = total + (t[j].1 as u32);
        j = j + 1;
    }
    proof {
        assert(t@.take(n as int) =~= t@);
    }
    if total > 64 {
        return Err(ErrorCode::DictionaryAccessError);
    }
    let packet = pack_data(&t);
    Ok(CanFrame { cob_id, data: packet })
}

proof fn lemma_total_bits_bound(s: Seq<(u64, u8)>, i: int)
    requires
        0 <= i <= s.len(),
    ensures
        total_bits(s.take(i)) <= 255 * i,
    decreases i,
{
    if i > 0 {
        assert(s.take(i).drop_last() =~= s.take(i - 1));
        assert(crate::codec::widths_of(s.take(i)).drop_last() =~= crate::codec::widths_of(
            s.take(i - 1),
        ));
        lemma_total_bits_bound(s, i - 1);
    } else {
        assert(s.take(0) =~= Seq::<(u64, u8)>::empty());
        assert(crate::codec::widths_of(s.take(0)) =~= Seq::<u8>::empty());
    }
}


/// The frame one transmit slot contributes to a pass: present exactly when
/// the slot is valid, the trigger policy fires it, and its mapped entries
/// render into one frame.
pub open spec fn spec_slot_frame(
    od: Map<u64, Seq<u8>>,
    p: PdoView,
    is_sync: bool,
    event: NodeEvent,
    count: u32,
) -> Option<FrameView> {
    if p.is_pdo_valid && spec_should_trigger(
        is_sync,
        event,
        p.transmission_type as u32,
        p.event_timer as u32,
        count,
    ) {
        spec_gen_frame(od, p.cob_id, p.num_of_map_objs, p.mappings)
    } else {
        None
    }
}

/// The frames of one evaluation pass over the first `n` transmit slots, in
/// slot order.
pub open spec fn spec_pdo_pass(
    od: Map<u64, Seq<u8>>,
    tpdos: Seq<PdoView>,
    is_sync: bool,
    event: NodeEvent,
    count: u32,
    n: nat,
) -> Seq<FrameView>
    decreases n,
{
    if n == 0 {
        Seq::empty()
    } else {
        let front = spec_pdo_pass(od, tpdos, is_sync, event, count, (n - 1) as nat);
        match spec_slot_frame(od, tpdos[n - 1], is_sync, event, count) {
            Some(f) => front.push(f),
            None => front,
        }
    }
}

} // verus!

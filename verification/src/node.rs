//! Node state machine: NMT-driven operating mode, frame classification by
//! COB-ID function code, and the SYNC / event-timer entry points that drive
//! PDO transmission passes. Transport send and receive happen outside this
//! core: every entry point returns the frames the node must now transmit.

use vstd::prelude::*;

use crate::dict::{build_dictionary, dict_of, ObjectDictionary, Variable};
use crate::frame::{CanFrame, FrameView};
use crate::pdo::{
    spec_default_table, spec_pdo_pass, spec_scan, should_trigger_pdo, PdoObjects,
};
use vstd::wrapping::u32_specs;

verus! {

/// Default number of segments per SDO block transfer.
pub const DEFAULT_BLOCK_SIZE: u8 = 0x7F;

/// Operating mode of the node, controlled by NMT command frames.
#[derive(PartialEq, Eq, Structural, Clone, Copy, Debug)]
pub enum NodeState {
    Init,
    PreOperational,
    Operational,
    Stopped,
}

/// Cause of an asynchronous PDO evaluation pass. The synchronous (SYNC) path
/// is flagged by a separate boolean and uses `Unused` as its tag.
#[derive(PartialEq, Eq, Structural, Clone, Copy, Debug)]
pub enum NodeEvent {
    RegularTimerEvent,
    NodeStart,
    Unused,
}

/// SDO session scratch state: opaque payload carried for the external SDO
/// collaborator, reset whenever communication is reset.
pub struct SdoSession {
    pub read_buf: Option<Vec<u8>>,
    pub read_buf_index: usize,
    pub next_read_toggle: u8,
    pub write_buf: Option<Vec<u8>>,
    pub reserved_index: u16,
    pub reserved_sub_index: u8,
    pub write_data_size: u32,
    pub need_crc: bool,
    pub block_size: u8,
    pub current_seq_number: u8,
    pub crc_enabled: bool,
}

/// A fresh SDO session.
pub open spec fn spec_default_session() -> SdoSession {
    SdoSession {
        read_buf: None,
        read_buf_index: 0,
        next_read_toggle: 0,
        write_buf: None,
        reserved_index: 0,
        reserved_sub_index: 0,
        write_data_size: 0,
        need_crc: false,
        block_size: DEFAULT_BLOCK_SIZE,
        current_seq_number: 0,
        crc_enabled: true,
    }
}

impl SdoSession {
    /// A fresh SDO session.
    pub fn new() -> (r: SdoSession)
        ensures
            r == spec_default_session(),
    {
        SdoSession {
            read_buf: None,
            read_buf_index: 0,
            next_read_toggle: 0,
            write_buf: None,
            reserved_index: 0,
            reserved_sub_index: 0,
            write_data_size: 0,
            need_crc: false,
            block_size: DEFAULT_BLOCK_SIZE,
            current_seq_number: 0,
            crc_enabled: true,
        }
    }
}

/// What a frame dispatch asks of the caller.
pub enum DispatchOutcome {
    /// Frames this node must now transmit.
    Transmit { frames: Vec<CanFrame> },
    /// The frame is an SDO request, to be handed to the SDO collaborator.
    SdoRequest,
    /// The frame's function code is not dispatched by this core.
    Unhandled,
}

/// The aggregate root: addressing, dictionary, PDO table, SDO scratch
/// state, the two trigger counters and the NMT operating mode.
pub struct Node {
    pub node_id: u16,
    pub object_dictionary: ObjectDictionary,
    pub pdo_objects: PdoObjects,
    pub sdo_session: SdoSession,
    pub sync_count: u32,
    pub event_count: u32,
    pub state: NodeState,
    /// The dictionary content the node was built from; a full reset restores
    /// it.
    pub initial_variables: Vec<Variable>,
}

/// The frames of one transmit pass of this node over its four transmit
/// slots.
pub open spec fn spec_pass(n: Node, is_sync: bool, event: NodeEvent, count: u32) -> Seq<
    FrameView,
> {
    spec_pdo_pass(n.object_dictionary@, n.pdo_objects@.tpdos, is_sync, event, count, 4)
}

/// Communication reset: the PDO table is rebuilt from the current
/// dictionary, the SDO session and both counters are cleared; addressing,
/// operating mode and dictionary values are preserved.
pub open spec fn spec_comm_reset(pre: Node, post: Node) -> bool {
    &&& post.node_id == pre.node_id
    &&& post.initial_variables == pre.initial_variables
    &&& post.state == pre.state
    &&& post.object_dictionary == pre.object_dictionary
    &&& post.pdo_objects@ == spec_scan(spec_default_table(), pre.object_dictionary@, 16)
    &&& post.sdo_session == spec_default_session()
    &&& post.sync_count == 0
    &&& post.event_count == 0
}

/// Full reset: the dictionary is rebuilt from the initial content, and
/// communication state is reset on top of it.
pub open spec fn spec_full_reset(pre: Node, post: Node) -> bool {
    &&& post.node_id == pre.node_id
    &&& post.initial_variables == pre.initial_variables
    &&& post.state == pre.state
    &&& post.object_dictionary@ == dict_of(pre.initial_variables@)
    &&& post.pdo_objects@ == spec_scan(spec_default_table(), dict_of(pre.initial_variables@), 16)
    &&& post.sdo_session == spec_default_session()
    &&& post.sync_count == 0
    &&& post.event_count == 0
}

/// Effect of one NMT frame. A frame that is not exactly two bytes, or whose
/// target address is another node's, changes nothing. Command 1 enters
/// `Operational` and runs an immediate `NodeStart` pass with cleared
/// counters; 2 enters `Stopped` unless the node is still in `Init`; 0x80
/// enters `PreOperational`; 0x81 enters `Init` with a full reset; 0x82
/// enters `Init` with a communication reset. Unknown commands are ignored.
/// NMT never produces a reply frame; only the `NodeStart` pass transmits.
pub open spec fn spec_nmt_effect(pre: Node, post: Node, data: Seq<u8>, out: Seq<FrameView>) -> bool {
    if data.len() != 2 || data[1] != pre.node_id as u8 {
        post == pre && out == Seq::<FrameView>::empty()
    } else if data[0] == 1 {
        let started = Node { state: NodeState::Operational, sync_count: 0, event_count: 0, ..pre };
        post == started && out == spec_pass(started, false, NodeEvent::NodeStart, 0)
    } else if data[0] == 2 {
        out == Seq::<FrameView>::empty() && post == if pre.state == NodeState::Init {
            pre
        } else {
            Node { state: NodeState::Stopped, ..pre }
        }
    } else if data[0] == 0x80 {
        out == Seq::<FrameView>::empty() && post == Node { state: NodeState::PreOperational, ..pre }
    } else if data[0] == 0x81 {
        out == Seq::<FrameView>::empty() && post.state == NodeState::Init && spec_full_reset(
            Node { state: NodeState::Init, ..pre },
            post,
        )
    } else if data[0] == 0x82 {
        out == Seq::<FrameView>::empty() && post.state == NodeState::Init && spec_comm_reset(
            Node { state: NodeState::Init, ..pre },
            post,
        )
    } else {
        post == pre && out == Seq::<FrameView>::empty()
    }
}

/// Effect of one SYNC frame: in `Operational` the SYNC counter steps
/// (wrapping) and a synchronous pass runs with its new value; in every
/// other state nothing happens and nothing is transmitted.
pub open spec fn spec_sync_effect(pre: Node, post: Node, out: Seq<FrameView>) -> bool {
    if pre.state == NodeState::Operational {
        &&& post == Node { sync_count: u32_specs::wrapping_add(pre.sync_count, 1), ..pre }
        &&& out == spec_pass(post, true, NodeEvent::Unused, post.sync_count)
    } else {
        post == pre && out == Seq::<FrameView>::empty()
    }
}

/// Effect of one timer callback: in `Operational` the event counter steps
/// (wrapping) and an asynchronous timer pass runs with its new value; in
/// every other state nothing happens and nothing is transmitted.
pub open spec fn spec_timer_effect(pre: Node, post: Node, out: Seq<FrameView>) -> bool {
    if pre.state == NodeState::Operational {
        &&& post == Node { event_count: u32_specs::wrapping_add(pre.event_count, 1), ..pre }
        &&& out == spec_pass(post, false, NodeEvent::RegularTimerEvent, post.event_count)
    } else {
        post == pre && out == Seq::<FrameView>::empty()
    }
}

/// Effect of dispatching one frame by the function-code bits of its COB-ID:
/// 0x000 is NMT, 0x080 is SYNC, 0x600 is an SDO request handed to the
/// caller, anything else is left alone.
pub open spec fn spec_dispatch_effect(
    pre: Node,
    post: Node,
    frame: FrameView,
    outcome: DispatchOutcome,
) -> bool {
    let fc = frame.cob_id & 0xFF80;
    if fc == 0x000 {
        outcome matches DispatchOutcome::Transmit { frames } && spec_nmt_effect(
            pre,
            post,
            frame.data,
            frames@.map_values(|f: CanFrame| f@),
        )
    } else if fc == 0x080 {
        outcome matches DispatchOutcome::Transmit { frames } && spec_sync_effect(
            pre,
            post,
            frames@.map_values(|f: CanFrame| f@),
        )
    } else if fc == 0x600 {
        post == pre && outcome matches DispatchOutcome::SdoRequest
    } else {
        post == pre && outcome matches DispatchOutcome::Unhandled
    }
}

/// An empty list of frames.
fn no_frames() -> (r: Vec<CanFrame>)
    ensures
        r@.map_values(|f: CanFrame| f@) == Seq::<FrameView>::empty(),
        r@.len() == 0,
{
    let r: Vec<CanFrame> = Vec::new();
    proof {
        assert(r@.map_values(|f: CanFrame| f@) =~= Seq::<FrameView>::empty());
    }
    r
}

impl Node {
    /// Addressing fits seven bits and the owned tables are well-formed.
    pub open spec fn wf(self) -> bool {
        &&& self.node_id <= 127
        &&& self.object_dictionary.wf()
        &&& self.pdo_objects.wf()
    }

    /// Builds a node from its address and its dictionary content: the
    /// dictionary is loaded, the PDO table derived from it, the state set to
    /// `Init` and all counters cleared.
    pub fn new(node_id: u16, content: Vec<Variable>) -> (r: Node)
        requires
            node_id <= 127,
        ensures
            r.wf(),
            r.node_id == node_id,
            r.state == NodeState::Init,
            r.sync_count == 0,
            r.event_count == 0,
            r.object_dictionary@ == dict_of(content@),
            r.pdo_objects@ == spec_scan(spec_default_table(), dict_of(content@), 16),
            r.sdo_session == spec_default_session(),
            r.initial_variables@ == content@,
    {
        let od = build_dictionary(&content);
        let pdo_objects = PdoObjects::new(&od);
        Node {
            node_id,
            object_dictionary: od,
            pdo_objects,
            sdo_session: SdoSession::new(),
            sync_count: 0,
            event_count: 0,
            state: NodeState::Init,
            initial_variables: content,
        }
    }

    /// A frame whose COB-ID's low seven bits name this node's own address is
    /// filtered out of generic processing.
    pub fn filter_frame(&self, frame: &CanFrame) -> (r: bool)
        ensures
            r == (frame.cob_id & 0x7F != self.node_id),
    {
        frame.cob_id & 0x7F != self.node_id
    }

    /// Evaluates the four transmit slots in fixed order and renders a frame
    /// for each one that must fire; sending them is the caller's.
    pub fn transmit_pdo_messages(&self, is_sync: bool, event: NodeEvent, count: u32) -> (r: Vec<
        CanFrame,
    >)
        requires
            self.wf(),
        ensures
            r@.map_values(|f: CanFrame| f@) == spec_pass(*self, is_sync, event, count),
    {
        let mut out: Vec<CanFrame> = Vec::new();
        proof {
            assert(out@.map_values(|f: CanFrame| f@) =~= Seq::<FrameView>::empty());
        }
        let mut i: usize = 0;
        while i < 4
            invariant
                self.wf(),
                i <= 4,
                out@.map_values(|f: CanFrame| f@) == spec_pdo_pass(
                    self.object_dictionary@,
                    self.pdo_objects@.tpdos,
                    is_sync,
                    event,
                    count,
                    i as nat,
                ),
            decreases 4 - i,
        {
            let ghost before: Seq<FrameView> = out@.map_values(|f: CanFrame| f@);
            let pdo = &self.pdo_objects.tpdos[i];
            proof {
                assert(pdo@ == self.pdo_objects@.tpdos[i as int]);
            }
            if pdo.is_pdo_valid {
                let tt = pdo.transmission_type as u32;
                if should_trigger_pdo(is_sync, event, tt, pdo.event_timer as u32, count) {
                    match crate::pdo::gen_pdo_frame(
                        &self.object_dictionary,
                        pdo.cob_id,
                        pdo.num_of_map_objs,
                        &pdo.mappings,
                    ) {
                        Ok(f) => {
                            proof {
                                assert(out@.push(f).map_values(|q: CanFrame| q@) =~= before.push(
                                    f@,
                                ));
                            }
                            out.push(f);
                        },
                        Err(_) => {},
                    }
                }
            }
            i = i + 1;
        }
        out
    }

    /// Communication reset: rebuilds the PDO table from the current
    /// dictionary and clears the SDO session and both counters.
    fn reset_communication(&mut self)
        requires
            old(self).wf(),
        ensures
            final(self).wf(),
            spec_comm_reset(*old(self), *final(self)),
    {
        let pdo_objects = PdoObjects::new(&self.object_dictionary);
        self.pdo_objects = pdo_objects;
        self.sdo_session = SdoSession::new();
        self.sync_count = 0;
        self.event_count = 0;
    }

    /// Full reset: restores the dictionary from the initial content, then
    /// resets communication.
    fn reset(&mut self)
        requires
            old(self).wf(),
        ensures
            final(self).wf(),
            spec_full_reset(*old(self), *final(self)),
    {
        let od = build_dictionary(&self.initial_variables);
        self.object_dictionary = od;
        self.reset_communication();
    }

    /// Handles one NMT frame; see `spec_nmt_effect`. A frame addressed to
    /// another node changes nothing, whatever its command specifier.
    pub fn process_nmt_frame(&mut self, frame: &CanFrame) -> (r: Vec<CanFrame>)
        requires
            old(self).wf(),
        ensures
            final(self).wf(),
            spec_nmt_effect(
                *old(self),
                *final(self),
                frame.data@,
                r@.map_values(|f: CanFrame| f@),
            ),
    {
        if frame.data.len() != 2 {
            return no_frames();
        }
        let cs = frame.data[0];
        let nid = frame.data[1];
        if nid != (self.node_id as u8) {
            return no_frames();
        }
        if cs == 1 {
            self.state = NodeState::Operational;
            self.trigger_event(NodeEvent::NodeStart)
        } else if cs == 2 {
            if self.state != NodeState::Init {
                self.state = NodeState::Stopped;
            }
            no_frames()
        } else if cs == 0x80 {
            self.state = NodeState::PreOperational;
            no_frames()
        } else if cs == 0x81 {
            self.state = NodeState::Init;
            self.reset();
            no_frames()
        } else if cs == 0x82 {
            self.state = NodeState::Init;
            self.reset_communication();
            no_frames()
        } else {
            no_frames()
        }
    }

    /// Handles one SYNC frame; see `spec_sync_effect`. Outside
    /// `Operational` no counter moves and no frame is transmitted.
    pub fn process_sync_frame(&mut self) -> (r: Vec<CanFrame>)
        requires
            old(self).wf(),
        ensures
            final(self).wf(),
            spec_sync_effect(*old(self), *final(self), r@.map_values(|f: CanFrame| f@)),
    {
        if self.state == NodeState::Operational {
            self.sync_count = self.sync_count.wrapping_add(1);
            self.transmit_pdo_messages(true, NodeEvent::Unused, self.sync_count)
        } else {
            no_frames()
        }
    }

    /// Clears both counters (local events restart the cyclic reference
    /// point) and runs an asynchronous pass tagged with the given event.
    pub fn trigger_event(&mut self, event: NodeEvent) -> (r: Vec<CanFrame>)
        requires
            old(self).wf(),
        ensures
            final(self).wf(),
            *final(self) == (Node { sync_count: 0, event_count: 0, ..*old(self) }),
            r@.map_values(|f: CanFrame| f@) == spec_pass(*final(self), false, event, 0),
    {
        self.event_count = 0;
        self.sync_count = 0;
        self.transmit_pdo_messages(false, event, 0)
    }

    /// Handles one tick of the external periodic clock; see
    /// `spec_timer_effect`. Outside `Operational` no counter moves and no
    /// frame is transmitted.
    pub fn event_timer_callback(&mut self) -> (r: Vec<CanFrame>)
        requires
            old(self).wf(),
        ensures
            final(self).wf(),
            spec_timer_effect(*old(self), *final(self), r@.map_values(|f: CanFrame| f@)),
    {
        if self.state == NodeState::Operational {
            self.event_count = self.event_count.wrapping_add(1);
            self.transmit_pdo_messages(false, NodeEvent::RegularTimerEvent, self.event_count)
        } else {
            no_frames()
        }
    }

    /// Classifies one received frame by the function-code bits of its
    /// COB-ID and handles it; see `spec_dispatch_effect`.
    pub fn communication_object_dispatch(&mut self, frame: CanFrame) -> (r: DispatchOutcome)
        requires
            old(self).wf(),
        ensures
            final(self).wf(),
            spec_dispatch_effect(*old(self), *final(self), frame@, r),
    {
        let fc = frame.cob_id & 0xFF80;
        if fc == 0x000 {
            let frames = self.process_nmt_frame(&frame);
            DispatchOutcome::Transmit { frames }
        } else if fc == 0x080 {
            let frames = self.process_sync_frame();
            DispatchOutcome::Transmit { frames }
        } else if fc == 0x600 {
            DispatchOutcome::SdoRequest
        } else {
            DispatchOutcome::Unhandled
        }
    }

    /// The startup notification frame the node offers for transmission once
    /// its owner has brought the transport up.
    pub fn init(&self) -> (r: CanFrame)
        ensures
            r@.cob_id == 0x234,
            r@.data == seq![1u8, 2u8, 3u8, 5u8],
    {
        let mut data: Vec<u8> = Vec::new();
        data.push(1);
        data.push(2);
        data.push(3);
        data.push(5);
        proof {
            assert(data@ =~= seq![1u8, 2u8, 3u8, 5u8]);
        }
        CanFrame { cob_id: 0x234, data }
    }

    /// Whether a collaborator's reply frame is worth sending: the reserved
    /// empty identifier 0 is suppressed.
    pub fn should_send_reply(&self, frame: &CanFrame) -> (r: bool)
        ensures
            r == (frame.cob_id != 0),
    {
        frame.cob_id != 0
    }
}

} // verus!

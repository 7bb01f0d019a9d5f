use canopen_node::dict::{ErrorCode, ObjectDictionary, Variable};
use canopen_node::frame::CanFrame;
use canopen_node::node::{DispatchOutcome, Node, NodeEvent, NodeState};
use canopen_node::pdo::{gen_pdo_frame, should_trigger_pdo, PdoObject, PdoType};

fn var(index: u16, sub_index: u8, data: Vec<u8>) -> Variable {
    Variable::new(index, sub_index, data)
}

/// Dictionary content with transmit slot 0 valid on COB-ID 0x183,
/// transmission type 2, mapping one 16-bit entry at 0x2000:0 = 0x1234.
fn tpdo_content() -> Vec<Variable> {
    vec![
        var(0x1800, 0, vec![0x05]),
        var(0x1800, 1, vec![0x00, 0x00, 0x01, 0x83]),
        var(0x1800, 2, vec![0x02]),
        var(0x1A00, 0, vec![0x01]),
        var(0x1A00, 1, vec![0x20, 0x00, 0x00, 0x10]),
        var(0x2000, 0, vec![0x12, 0x34]),
    ]
}

#[test]
fn trigger_policy_sync_table() {
    for tt in 1u32..=240 {
        for count in [0u32, 1, 2, 7, tt, 2 * tt, 3 * tt + 1] {
            let fired = should_trigger_pdo(true, NodeEvent::Unused, tt, 0, count);
            assert_eq!(fired, count % tt == 0);
        }
    }
    for tt in [0u32, 241, 250, 0xFE, 0xFF] {
        for count in [0u32, 1, 2, 240] {
            assert!(!should_trigger_pdo(true, NodeEvent::Unused, tt, 5, count));
        }
    }
}

#[test]
fn trigger_policy_event_table() {
    for tt in [0xFEu32, 0xFF] {
        for period in 1u32..=10 {
            for count in [0u32, 1, period, 2 * period, 2 * period + 1] {
                let fired =
                    should_trigger_pdo(false, NodeEvent::RegularTimerEvent, tt, period, count);
                assert_eq!(fired, count % period == 0);
            }
        }
        // A zero event-timer period never fires.
        assert!(!should_trigger_pdo(false, NodeEvent::RegularTimerEvent, tt, 0, 0));
        assert!(!should_trigger_pdo(false, NodeEvent::RegularTimerEvent, tt, 0, 6));
    }
    // Non-event-driven transmission types never fire on the event path.
    assert!(!should_trigger_pdo(false, NodeEvent::RegularTimerEvent, 1, 5, 5));
    assert!(!should_trigger_pdo(false, NodeEvent::Unused, 0, 5, 5));
}

#[test]
fn trigger_policy_node_start_always_fires() {
    for tt in [0u32, 1, 240, 241, 0xFE, 0xFF] {
        for period in [0u32, 3] {
            for count in [0u32, 1, 17] {
                assert!(should_trigger_pdo(false, NodeEvent::NodeStart, tt, period, count));
            }
        }
    }
}

#[test]
fn comm_param_update_is_idempotent() {
    let mut once = PdoObject {
        pdo_type: PdoType::TPDO,
        is_pdo_valid: false,
        _not_used_rtr_allowed: false,
        _not_used_is_29bit_can_id: false,
        largest_sub_index: 5,
        cob_id: 0x180,
        transmission_type: 0x01,
        inhibit_time: 0,
        event_timer: 0,
        num_of_map_objs: 0,
        mappings: Vec::new(),
    };
    let mut twice = PdoObject {
        pdo_type: PdoType::TPDO,
        is_pdo_valid: false,
        _not_used_rtr_allowed: false,
        _not_used_is_29bit_can_id: false,
        largest_sub_index: 5,
        cob_id: 0x180,
        transmission_type: 0x01,
        inhibit_time: 0,
        event_timer: 0,
        num_of_map_objs: 0,
        mappings: Vec::new(),
    };
    let update = var(0x1800, 1, vec![0x40, 0x00, 0x01, 0x99]);
    once.update_comm_params(&update);
    twice.update_comm_params(&update);
    twice.update_comm_params(&update);
    assert_eq!(once.is_pdo_valid, twice.is_pdo_valid);
    assert_eq!(once._not_used_rtr_allowed, twice._not_used_rtr_allowed);
    assert_eq!(once._not_used_is_29bit_can_id, twice._not_used_is_29bit_can_id);
    assert_eq!(once.cob_id, twice.cob_id);
    assert_eq!(once.largest_sub_index, twice.largest_sub_index);
    assert_eq!(once.transmission_type, twice.transmission_type);
    assert_eq!(once.inhibit_time, twice.inhibit_time);
    assert_eq!(once.event_timer, twice.event_timer);
    assert!(once.is_pdo_valid);
    assert!(once._not_used_rtr_allowed);
    assert_eq!(once.cob_id, 0x199);
}

#[test]
fn comm_param_word_decodes_flags_and_cob_id() {
    let mut p = PdoObject {
        pdo_type: PdoType::RPDO,
        is_pdo_valid: false,
        _not_used_rtr_allowed: false,
        _not_used_is_29bit_can_id: false,
        largest_sub_index: 5,
        cob_id: 0x202,
        transmission_type: 0x01,
        inhibit_time: 0,
        event_timer: 0,
        num_of_map_objs: 0,
        mappings: Vec::new(),
    };
    // Bit 31 set: invalid; bit 29 set; COB-ID 0x0205.
    p.update_comm_params(&var(0x1400, 1, vec![0xA0, 0x00, 0x02, 0x05]));
    assert!(!p.is_pdo_valid);
    assert!(!p._not_used_rtr_allowed);
    assert!(p._not_used_is_29bit_can_id);
    assert_eq!(p.cob_id, 0x205);
    p.update_comm_params(&var(0x1400, 2, vec![0xFE]));
    assert_eq!(p.transmission_type, 0xFE);
    p.update_comm_params(&var(0x1400, 5, vec![0x00, 0x03]));
    assert_eq!(p.event_timer, 3);
}

#[test]
fn map_param_update_resizes_and_ignores_stale_writes() {
    let mut p = PdoObject {
        pdo_type: PdoType::TPDO,
        is_pdo_valid: false,
        _not_used_rtr_allowed: false,
        _not_used_is_29bit_can_id: false,
        largest_sub_index: 5,
        cob_id: 0x180,
        transmission_type: 0x01,
        inhibit_time: 0,
        event_timer: 0,
        num_of_map_objs: 0,
        mappings: Vec::new(),
    };
    p.update_map_params(&var(0x1A00, 0, vec![0x02]));
    assert_eq!(p.num_of_map_objs, 2);
    assert_eq!(p.mappings.len(), 3);
    assert_eq!(p.mappings[0], (0, 0, 0));
    p.update_map_params(&var(0x1A00, 1, vec![0x20, 0x00, 0x01, 0x10]));
    assert_eq!(p.mappings[1], (0x2000, 0x01, 0x10));
    // A write beyond the configured count is ignored.
    p.update_map_params(&var(0x1A00, 3, vec![0x30, 0x00, 0x00, 0x08]));
    assert_eq!(p.mappings.len(), 3);
    assert_eq!(p.mappings[2], (0, 0, 0));
}

#[test]
fn dictionary_lookup_and_missing_entry_error() {
    let mut od = ObjectDictionary::new();
    od.set_variable(var(0x2000, 1, vec![0xAB]));
    let got = od.get_variable(0x2000, 1).unwrap();
    assert_eq!(got.index, 0x2000);
    assert_eq!(got.sub_index, 1);
    assert_eq!(got.data, vec![0xAB]);
    assert!(matches!(
        od.get_variable(0x9999, 0),
        Err(ErrorCode::DictionaryAccessError)
    ));
}

#[test]
fn variable_value_decoding() {
    let v = var(0x2000, 0, vec![0x12, 0x34, 0x56, 0x78]);
    assert_eq!(v.val_u32(), 0x12345678);
    assert_eq!(v.val_u16(), 0x5678);
    assert_eq!(v.val_u8(), 0x78);
    let short = var(0x2000, 0, vec![0x07]);
    assert_eq!(short.val_u32(), 7);
    assert_eq!(short.val_u16(), 7);
    assert_eq!(short.val_u8(), 7);
}

#[test]
fn gen_pdo_frame_missing_entry_fails() {
    let od = ObjectDictionary::new();
    let mappings = vec![(0u16, 0u8, 0u8), (0x2000u16, 0u8, 16u8)];
    let r = gen_pdo_frame(&od, 0x183, 1, &mappings);
    assert!(matches!(r, Err(ErrorCode::DictionaryAccessError)));
}

#[test]
fn gen_pdo_frame_packs_mapped_values() {
    let mut od = ObjectDictionary::new();
    od.set_variable(var(0x2000, 0, vec![0x12, 0x34]));
    od.set_variable(var(0x2001, 0, vec![0x05]));
    let mappings = vec![
        (0u16, 0u8, 0u8),
        (0x2000u16, 0u8, 16u8),
        (0x2001u16, 0u8, 4u8),
    ];
    let f = gen_pdo_frame(&od, 0x183, 2, &mappings).unwrap();
    assert_eq!(f.cob_id, 0x183);
    // 16 + 4 bits merge to 0x12345, right-aligned in 3 bytes.
    assert_eq!(f.data, vec![0x01, 0x23, 0x45]);
}

#[test]
fn nmt_frame_for_other_node_changes_nothing() {
    let mut node = Node::new(5, tpdo_content());
    for cs in [0x01u8, 0x02, 0x80, 0x81, 0x82, 0x55] {
        let out = node.process_nmt_frame(&CanFrame::new(0x000, vec![cs, 6]));
        assert_eq!(out.len(), 0);
        assert_eq!(node.state, NodeState::Init);
        assert_eq!(node.sync_count, 0);
        assert_eq!(node.event_count, 0);
    }
}

#[test]
fn nmt_frame_of_wrong_length_is_ignored() {
    let mut node = Node::new(5, tpdo_content());
    let out = node.process_nmt_frame(&CanFrame::new(0x000, vec![0x01]));
    assert_eq!(out.len(), 0);
    assert_eq!(node.state, NodeState::Init);
    let out = node.process_nmt_frame(&CanFrame::new(0x000, vec![0x01, 5, 0]));
    assert_eq!(out.len(), 0);
    assert_eq!(node.state, NodeState::Init);
}

#[test]
fn nmt_state_transitions() {
    let mut node = Node::new(5, tpdo_content());
    // Stop is ignored while still in Init.
    node.process_nmt_frame(&CanFrame::new(0x000, vec![0x02, 5]));
    assert_eq!(node.state, NodeState::Init);
    node.process_nmt_frame(&CanFrame::new(0x000, vec![0x80, 5]));
    assert_eq!(node.state, NodeState::PreOperational);
    node.process_nmt_frame(&CanFrame::new(0x000, vec![0x02, 5]));
    assert_eq!(node.state, NodeState::Stopped);
    node.process_nmt_frame(&CanFrame::new(0x000, vec![0x81, 5]));
    assert_eq!(node.state, NodeState::Init);
    // An unknown command specifier changes nothing.
    node.process_nmt_frame(&CanFrame::new(0x000, vec![0x42, 5]));
    assert_eq!(node.state, NodeState::Init);
}

#[test]
fn sync_and_timer_transmit_nothing_outside_operational() {
    for cs in [0x02u8, 0x80] {
        let mut node = Node::new(5, tpdo_content());
        // Leave Init so the stop command takes effect where it applies.
        node.process_nmt_frame(&CanFrame::new(0x000, vec![0x80, 5]));
        node.process_nmt_frame(&CanFrame::new(0x000, vec![cs, 5]));
        let sync_out = node.process_sync_frame();
        assert_eq!(sync_out.len(), 0);
        assert_eq!(node.sync_count, 0);
        let timer_out = node.event_timer_callback();
        assert_eq!(timer_out.len(), 0);
        assert_eq!(node.event_count, 0);
    }
}

#[test]
fn node_start_scenario_fires_then_sync_counts() {
    let mut node = Node::new(5, tpdo_content());
    // NMT start addressed to this node.
    let out = node.process_nmt_frame(&CanFrame::new(0x000, vec![0x01, 5]));
    assert_eq!(node.state, NodeState::Operational);
    assert_eq!(node.sync_count, 0);
    assert_eq!(node.event_count, 0);
    // NodeStart fires every valid transmit slot regardless of its type.
    assert_eq!(out.len(), 1);
    assert_eq!(out[0].cob_id, 0x183);
    assert_eq!(out[0].data, vec![0x12, 0x34]);
    // Transmission type 2: the first SYNC does not divide, the second does.
    let out = node.process_sync_frame();
    assert_eq!(node.sync_count, 1);
    assert_eq!(out.len(), 0);
    let out = node.process_sync_frame();
    assert_eq!(node.sync_count, 2);
    assert_eq!(out.len(), 1);
    assert_eq!(out[0].cob_id, 0x183);
    assert_eq!(out[0].data, vec![0x12, 0x34]);
}

#[test]
fn event_timer_fires_on_period_multiples() {
    let mut content = tpdo_content();
    // Event-driven transmission type with a period of three ticks.
    content.push(var(0x1800, 2, vec![0xFE]));
    content.push(var(0x1800, 5, vec![0x00, 0x03]));
    let mut node = Node::new(5, content);
    node.process_nmt_frame(&CanFrame::new(0x000, vec![0x01, 5]));
    assert_eq!(node.event_timer_callback().len(), 0);
    assert_eq!(node.event_timer_callback().len(), 0);
    let out = node.event_timer_callback();
    assert_eq!(node.event_count, 3);
    assert_eq!(out.len(), 1);
    assert_eq!(out[0].cob_id, 0x183);
}

#[test]
fn dispatch_routes_by_function_code() {
    let mut node = Node::new(5, tpdo_content());
    // NMT start through the dispatcher.
    let outcome = node.communication_object_dispatch(CanFrame::new(0x000, vec![0x01, 5]));
    match outcome {
        DispatchOutcome::Transmit { frames } => assert_eq!(frames.len(), 1),
        _ => panic!("NMT must dispatch to a transmit outcome"),
    }
    assert_eq!(node.state, NodeState::Operational);
    // SYNC through the dispatcher.
    let outcome = node.communication_object_dispatch(CanFrame::new(0x080, vec![]));
    match outcome {
        DispatchOutcome::Transmit { frames } => assert_eq!(frames.len(), 0),
        _ => panic!("SYNC must dispatch to a transmit outcome"),
    }
    assert_eq!(node.sync_count, 1);
    // An SDO request is handed back to the caller.
    let outcome = node.communication_object_dispatch(CanFrame::new(0x605, vec![0x40, 0, 0x20, 0]));
    assert!(matches!(outcome, DispatchOutcome::SdoRequest));
    // Anything else is not dispatched.
    let outcome = node.communication_object_dispatch(CanFrame::new(0x700, vec![]));
    assert!(matches!(outcome, DispatchOutcome::Unhandled));
}

#[test]
fn full_reset_restores_dictionary_values() {
    let mut node = Node::new(5, tpdo_content());
    // Overwrite the mapped value, then ask for a full reset.
    node.object_dictionary.set_variable(var(0x2000, 0, vec![0xAA, 0xBB]));
    node.process_nmt_frame(&CanFrame::new(0x000, vec![0x81, 5]));
    assert_eq!(node.state, NodeState::Init);
    let restored = node.object_dictionary.get_variable(0x2000, 0).unwrap();
    assert_eq!(restored.data, vec![0x12, 0x34]);
}

#[test]
fn communication_reset_preserves_dictionary_values() {
    let mut node = Node::new(5, tpdo_content());
    node.object_dictionary.set_variable(var(0x2000, 0, vec![0xAA, 0xBB]));
    node.process_nmt_frame(&CanFrame::new(0x000, vec![0x82, 5]));
    assert_eq!(node.state, NodeState::Init);
    assert_eq!(node.sync_count, 0);
    let kept = node.object_dictionary.get_variable(0x2000, 0).unwrap();
    assert_eq!(kept.data, vec![0xAA, 0xBB]);
}

#[test]
fn rpdo_cob_lookup_records_configured_cob_ids() {
    let content = vec![
        var(0x1401, 0, vec![0x05]),
        var(0x1401, 1, vec![0x00, 0x00, 0x02, 0x05]),
    ];
    let node = Node::new(5, content);
    assert_eq!(node.pdo_objects.rpdo_index_of(0x205), Some(1));
    assert_eq!(node.pdo_objects.rpdo_index_of(0x206), None);
}

#[test]
fn filter_and_reply_suppression() {
    let node = Node::new(5, Vec::new());
    assert!(!node.filter_frame(&CanFrame::new(0x605, vec![])));
    assert!(node.filter_frame(&CanFrame::new(0x606, vec![])));
    assert!(!node.should_send_reply(&CanFrame::new(0, vec![])));
    assert!(node.should_send_reply(&CanFrame::new(0x585, vec![])));
    let ready = node.init();
    assert_eq!(ready.cob_id, 0x234);
    assert_eq!(ready.data, vec![1, 2, 3, 5]);
}

#[test]
fn trigger_event_resets_counters() {
    let mut node = Node::new(5, tpdo_content());
    node.process_nmt_frame(&CanFrame::new(0x000, vec![0x01, 5]));
    node.process_sync_frame();
    node.event_timer_callback();
    assert!(node.sync_count > 0 || node.event_count > 0);
    let out = node.trigger_event(NodeEvent::NodeStart);
    assert_eq!(node.sync_count, 0);
    assert_eq!(node.event_count, 0);
    assert_eq!(out.len(), 1);
}

#[test]
fn node_start_fires_all_valid_slots_in_order() {
    let mut content = tpdo_content();
    // Second transmit slot: event-driven type, COB-ID 0x184, one 8-bit entry.
    content.push(var(0x1801, 0, vec![0x05]));
    content.push(var(0x1801, 1, vec![0x00, 0x00, 0x01, 0x84]));
    content.push(var(0x1801, 2, vec![0xFF]));
    content.push(var(0x1A01, 0, vec![0x01]));
    content.push(var(0x1A01, 1, vec![0x20, 0x01, 0x00, 0x08]));
    content.push(var(0x2001, 0, vec![0x55]));
    let mut node = Node::new(5, content);
    let out = node.process_nmt_frame(&CanFrame::new(0x000, vec![0x01, 5]));
    // NodeStart fires both valid slots, in slot order.
    assert_eq!(out.len(), 2);
    assert_eq!(out[0].cob_id, 0x183);
    assert_eq!(out[0].data, vec![0x12, 0x34]);
    assert_eq!(out[1].cob_id, 0x184);
    assert_eq!(out[1].data, vec![0x55]);
    // On SYNC only the cyclic slot can fire; the event-driven one never does.
    node.process_sync_frame();
    let out = node.process_sync_frame();
    assert_eq!(out.len(), 1);
    assert_eq!(out[0].cob_id, 0x183);
}

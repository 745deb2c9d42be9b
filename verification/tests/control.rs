use nypa_db_connector::control::{
    check_rpc_reply, operation_rpc, response_for, set_variable_operations, ControlNotice, ControlResponse,
    NypaDbControlOperation, NypaDbSetVariableOptions, NypaDbVariable, NypaDbVariableReset, NypaDbVariableSemantic,
    NypaDbVariableUpdate,
    NypaDbVariableSet, NypaDbVariableStrategy, NypaDbVariableStream, NypaDbVariables,
};

fn test_stream(stream_id: usize, value: f32) -> NypaDbVariableStream {
    NypaDbVariableStream {
        stream_id,
        strategy: NypaDbVariableStrategy::JsonRpc,
        variables: vec![NypaDbVariable {
            name: "Gain".to_string(),
            internal_name: "gain".to_string(),
            description: None,
            initial_value: 1.0f32.to_bits(),
            value: value.to_bits(),
            min: Some(0.0f32.to_bits()),
            max: Some(10.0f32.to_bits()),
            semantic: NypaDbVariableSemantic::Real,
            index: None,
            source: None,
        }],
    }
}

#[test]
fn variables_upsert_keeps_streams_sorted() {
    let mut variables = NypaDbVariables::default();

    variables.upsert_stream(test_stream(2, 1.0));
    variables.upsert_stream(test_stream(0, 2.0));
    variables.upsert_stream(test_stream(2, 3.0));

    assert_eq!(variables.streams.len(), 2);
    assert_eq!(variables.streams[0].stream_id, 0);
    assert_eq!(variables.streams[1].stream_id, 2);
    assert_eq!(f32::from_bits(variables.streams[1].variables[0].value), 3.0);
}

#[test]
fn variable_update_changes_reflected_value() {
    let mut variables = NypaDbVariables::default();
    variables.upsert_stream(test_stream(0, 1.0));

    variables.apply_update(&NypaDbVariableSet {
        stream_id: 0,
        name: "gain".to_string(),
        value: 2.5f32.to_bits(),
    });

    assert_eq!(f32::from_bits(variables.variable(0, "gain").unwrap().value), 2.5);
}

#[test]
fn state_vector_reset_restores_initial_reflected_values() {
    let mut variables = NypaDbVariables::default();
    variables.upsert_stream(test_stream(0, 2.5));

    variables.apply_reset(&NypaDbVariableReset {
        stream_id: 0,
        strategy: NypaDbVariableStrategy::StateVector,
        reset_count: 1,
        skipped: false,
        message: "reset 1 state_vector variable(s)".to_string(),
    });

    assert_eq!(f32::from_bits(variables.variable(0, "gain").unwrap().value), 1.0);
}

#[test]
fn skipped_reset_changes_nothing() {
    let mut variables = NypaDbVariables::default();
    variables.upsert_stream(test_stream(0, 2.5));
    variables.apply_reset(&NypaDbVariableReset {
        stream_id: 0,
        strategy: NypaDbVariableStrategy::JsonRpc,
        reset_count: 0,
        skipped: true,
        message: String::new(),
    });
    assert_eq!(f32::from_bits(variables.variable(0, "gain").unwrap().value), 2.5);
}

#[test]
fn lookups_of_unknown_streams_and_names() {
    let mut variables = NypaDbVariables::default();
    variables.upsert_stream(test_stream(4, 1.0));
    assert!(variables.stream(3).is_none());
    assert_eq!(variables.stream(4).unwrap().stream_id, 4);
    assert!(variables.variable(4, "missing").is_none());
    assert!(variables.variable(5, "gain").is_none());
    // An update for an unknown variable changes nothing.
    variables.apply_update(&NypaDbVariableSet { stream_id: 4, name: "other".to_string(), value: 9 });
    assert_eq!(f32::from_bits(variables.variable(4, "gain").unwrap().value), 1.0);
}

#[test]
fn upsert_sorts_an_unsorted_list_stably() {
    let mut variables = NypaDbVariables::default();
    variables.streams = vec![test_stream(5, 1.0), test_stream(1, 2.0), test_stream(5, 3.0)];
    variables.upsert_stream(test_stream(3, 4.0));
    let ids: Vec<usize> = variables.streams.iter().map(|s| s.stream_id).collect();
    assert_eq!(ids, [1, 3, 5, 5]);
    assert_eq!(f32::from_bits(variables.streams[2].variables[0].value), 1.0);
    assert_eq!(f32::from_bits(variables.streams[3].variables[0].value), 3.0);
}

#[test]
fn responses_raise_notices_in_order() {
    let mut variables = NypaDbVariables::default();
    let notices = variables.apply_response(ControlResponse::Variables(test_stream(1, 1.0)));
    assert!(matches!(notices.as_slice(), [ControlNotice::VariablesChanged(c)] if c.stream_id == 1));

    let notices = variables.apply_response(ControlResponse::VariableSet(NypaDbVariableSet {
        stream_id: 1,
        name: "gain".to_string(),
        value: 7.0f32.to_bits(),
    }));
    assert_eq!(notices.len(), 2);
    assert!(matches!(&notices[0], ControlNotice::VariablesChanged(c) if c.stream_id == 1));
    assert!(matches!(&notices[1], ControlNotice::VariableSet(s) if s.name == "gain"));
    assert_eq!(f32::from_bits(variables.variable(1, "gain").unwrap().value), 7.0);

    let error = response_for(
        NypaDbControlOperation::ResetVariables { stream_id: 1 },
        Err("down".to_string()),
    );
    let notices = variables.apply_response(error);
    assert!(matches!(notices.as_slice(), [ControlNotice::Error(e)] if e.stream_id == 1 && e.message == "down"));
}

#[test]
fn operations_map_to_rpc_calls() {
    let plain = NypaDbSetVariableOptions::default();
    let (method, params) =
        operation_rpc(&NypaDbControlOperation::GetVariables { stream_id: 3 }, &plain);
    assert_eq!(method, "get_variables");
    assert_eq!(params.stream_id, 3);
    assert!(params.name.is_none() && params.value.is_none() && params.start_region.is_none());

    let (method, params) = operation_rpc(
        &NypaDbControlOperation::SetVariable {
            stream_id: 1,
            name: "example_gain".to_string(),
            value: 2.5f32.to_bits(),
        },
        &plain,
    );
    assert_eq!(method, "set_variable");
    assert_eq!(params.name.as_deref(), Some("example_gain"));
    assert_eq!(params.value, Some(2.5f32.to_bits()));
    assert!(params.start_region.is_none());

    let (method, _) =
        operation_rpc(&NypaDbControlOperation::ResetVariables { stream_id: 0 }, &plain);
    assert_eq!(method, "reset_variables");
    assert_eq!(NypaDbControlOperation::ResetVariables { stream_id: 9 }.stream_id(), 9);
}

#[test]
fn recording_region_goes_only_with_set_variable() {
    let region = NypaDbSetVariableOptions::start_region("example fault".to_string());
    let (method, params) = operation_rpc(
        &NypaDbControlOperation::SetVariable {
            stream_id: 0,
            name: "example_fault".to_string(),
            value: 1.0f32.to_bits(),
        },
        &region,
    );
    assert_eq!(method, "set_variable");
    assert_eq!(params.start_region.as_deref(), Some("example fault"));

    let (_, params) =
        operation_rpc(&NypaDbControlOperation::GetVariables { stream_id: 0 }, &region);
    assert!(params.start_region.is_none());
    let (_, params) =
        operation_rpc(&NypaDbControlOperation::ResetVariables { stream_id: 0 }, &region);
    assert!(params.start_region.is_none());
}

#[test]
fn rpc_replies_are_checked_in_order() {
    assert_eq!(check_rpc_reply(Some("JSON-RPC error -1: boom".to_string()), true), Err("JSON-RPC error -1: boom".to_string()));
    assert_eq!(
        check_rpc_reply(None, false),
        Err("JSON-RPC response did not include a result".to_string())
    );
    assert_eq!(check_rpc_reply(None, true), Ok(()));
}

#[test]
fn successful_outcome_is_passed_on() {
    let response = response_for(
        NypaDbControlOperation::GetVariables { stream_id: 2 },
        Ok(ControlResponse::Variables(test_stream(2, 1.0))),
    );
    assert!(matches!(response, ControlResponse::Variables(s) if s.stream_id == 2));
}

#[test]
fn variable_positions_point_at_the_first_match() {
    let mut variables = NypaDbVariables::default();
    variables.upsert_stream(test_stream(4, 1.0));
    variables.upsert_stream(test_stream(1, 2.0));

    assert_eq!(variables.stream_index(4), Some(1));
    assert_eq!(variables.stream_index(1), Some(0));
    assert_eq!(variables.stream_index(3), None);
    assert_eq!(variables.variable_position(4, "gain"), Some((1, 0)));
    assert_eq!(variables.variable_position(4, "Gain"), None);
    assert_eq!(variables.variable_position(2, "gain"), None);
}

#[test]
fn variable_batches_become_set_operations_in_order() {
    let updates = vec![
        NypaDbVariableUpdate { name: "state_breaker".to_string(), value: 1.0f32.to_bits() },
        NypaDbVariableUpdate { name: "state_setpoint".to_string(), value: 0.75f32.to_bits() },
    ];
    let ops = set_variable_operations(2, &updates);
    assert_eq!(ops.len(), 2);
    assert!(matches!(&ops[0], NypaDbControlOperation::SetVariable { stream_id: 2, name, value }
        if name == "state_breaker" && *value == 1.0f32.to_bits()));
    assert!(matches!(&ops[1], NypaDbControlOperation::SetVariable { stream_id: 2, name, value }
        if name == "state_setpoint" && *value == 0.75f32.to_bits()));
    assert!(set_variable_operations(0, &Vec::new()).is_empty());
}

use medieval::controls::{SelectionMode, TacticalControlError};
use medieval::requests::{control_intent, ControlArguments, ControlIntent};
use medieval::tactical::BattlePoint;

fn no_arguments() -> ControlArguments {
    ControlArguments {
        unit_ids: None,
        group: None,
        additive: None,
        active: None,
        has_delta_x: false,
        has_delta_y: false,
        has_factor: false,
        x_mm: None,
        y_mm: None,
        target_unit_id: None,
    }
}

#[test]
fn request_dispatch_rejects_missing_and_unknown_intents() {
    assert_eq!(
        control_intent("zoomCamera", no_arguments()).unwrap_err(),
        TacticalControlError::MissingArgument {
            intent: "zoomCamera".to_owned(),
            argument: "factor".to_owned(),
        }
    );
    assert_eq!(
        control_intent("teleport", no_arguments()).unwrap_err(),
        TacticalControlError::UnknownIntent("teleport".to_owned())
    );
}

#[test]
fn request_arguments_become_intents() {
    let mut select = no_arguments();
    select.unit_ids = Some(vec!["attacker-a".to_owned()]);
    assert_eq!(
        control_intent("selectToggle", select).unwrap(),
        ControlIntent::SelectUnits { unit_ids: vec!["attacker-a".to_owned()], mode: SelectionMode::Toggle }
    );

    let mut recall = no_arguments();
    recall.group = Some(3);
    assert_eq!(
        control_intent("recallControlGroup", recall).unwrap(),
        ControlIntent::RecallControlGroup { group: 3, additive: false }
    );

    let mut pan = no_arguments();
    pan.has_delta_x = true;
    assert_eq!(
        control_intent("panCamera", pan).unwrap_err(),
        TacticalControlError::MissingArgument { intent: "panCamera".to_owned(), argument: "deltaYMm".to_owned() }
    );

    let mut movement = no_arguments();
    movement.y_mm = Some(5);
    assert_eq!(
        control_intent("moveSelected", movement).unwrap_err().message(),
        "tactical control moveSelected requires xMm"
    );
    let mut movement = no_arguments();
    movement.x_mm = Some(7);
    movement.y_mm = Some(5);
    assert_eq!(
        control_intent("moveSelected", movement).unwrap(),
        ControlIntent::MoveSelected { destination: BattlePoint::new(7, 5) }
    );
    assert_eq!(control_intent("stopSelected", no_arguments()).unwrap(), ControlIntent::StopSelected);
}

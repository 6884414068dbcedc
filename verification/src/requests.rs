use vstd::prelude::*;

use crate::campaign::text_views;
use crate::controls::{ControlErrorView, SelectionMode, TacticalControlError};
use crate::tactical::BattlePoint;
use crate::text::{owned, text_is};

verus! {

/// The arguments a tactical control request may carry; which of them are
/// needed depends on the request's kind. Camera deltas and zoom factors are
/// measured by the shell, which reports here only whether they were given.
pub struct ControlArguments {
    pub unit_ids: Option<Vec<String>>,
    pub group: Option<u8>,
    pub additive: Option<bool>,
    pub active: Option<bool>,
    pub has_delta_x: bool,
    pub has_delta_y: bool,
    pub has_factor: bool,
    pub x_mm: Option<u32>,
    pub y_mm: Option<u32>,
    pub target_unit_id: Option<String>,
}

pub ghost struct ControlArgumentsView {
    pub unit_ids: Option<Seq<Seq<char>>>,
    pub group: Option<u8>,
    pub additive: Option<bool>,
    pub active: Option<bool>,
    pub has_delta_x: bool,
    pub has_delta_y: bool,
    pub has_factor: bool,
    pub x_mm: Option<u32>,
    pub y_mm: Option<u32>,
    pub target_unit_id: Option<Seq<char>>,
}

impl View for ControlArguments {
    type V = ControlArgumentsView;

    open spec fn view(&self) -> ControlArgumentsView {
        ControlArgumentsView {
            unit_ids: match self.unit_ids {
                Some(ids) => Some(text_views(ids@)),
                None => None,
            },
            group: self.group,
            additive: self.additive,
            active: self.active,
            has_delta_x: self.has_delta_x,
            has_delta_y: self.has_delta_y,
            has_factor: self.has_factor,
            x_mm: self.x_mm,
            y_mm: self.y_mm,
            target_unit_id: match self.target_unit_id {
                Some(id) => Some(id@),
                None => None,
            },
        }
    }
}

/// A control request whose arguments are all present. Camera intents carry
/// no payload here: the shell that measured the deltas applies them.
#[derive(Debug, PartialEq, Eq)]
pub enum ControlIntent {
    FitCamera,
    PanCamera,
    ZoomCamera,
    SelectUnits { unit_ids: Vec<String>, mode: SelectionMode },
    ClearSelection,
    AssignControlGroup { group: u8 },
    RecallControlGroup { group: u8, additive: bool },
    SetOrderPreview { active: bool },
    MoveSelected { destination: BattlePoint },
    EngageSelected { target_unit_id: String },
    StopSelected,
}

pub ghost enum ControlIntentView {
    FitCamera,
    PanCamera,
    ZoomCamera,
    SelectUnits { unit_ids: Seq<Seq<char>>, mode: SelectionMode },
    ClearSelection,
    AssignControlGroup { group: u8 },
    RecallControlGroup { group: u8, additive: bool },
    SetOrderPreview { active: bool },
    MoveSelected { destination: BattlePoint },
    EngageSelected { target_unit_id: Seq<char> },
    StopSelected,
}

impl View for ControlIntent {
    type V = ControlIntentView;

    open spec fn view(&self) -> ControlIntentView {
        match self {
            ControlIntent::FitCamera => ControlIntentView::FitCamera,
            ControlIntent::PanCamera => ControlIntentView::PanCamera,
            ControlIntent::ZoomCamera => ControlIntentView::ZoomCamera,
            ControlIntent::SelectUnits { unit_ids, mode } => ControlIntentView::SelectUnits {
                unit_ids: text_views(unit_ids@),
                mode: *mode,
            },
            ControlIntent::ClearSelection => ControlIntentView::ClearSelection,
            ControlIntent::AssignControlGroup { group } => ControlIntentView::AssignControlGroup {
                group: *group,
            },
            ControlIntent::RecallControlGroup { group, additive } => ControlIntentView::RecallControlGroup {
                group: *group,
                additive: *additive,
            },
            ControlIntent::SetOrderPreview { active } => ControlIntentView::SetOrderPreview {
                active: *active,
            },
            ControlIntent::MoveSelected { destination } => ControlIntentView::MoveSelected {
                destination: *destination,
            },
            ControlIntent::EngageSelected { target_unit_id } => ControlIntentView::EngageSelected {
                target_unit_id: target_unit_id@,
            },
            ControlIntent::StopSelected => ControlIntentView::StopSelected,
        }
    }
}

pub open spec fn missing(kind: Seq<char>, argument: Seq<char>) -> ControlErrorView {
    ControlErrorView::MissingArgument { intent: kind, argument }
}

pub open spec fn select_intent(kind: Seq<char>, a: ControlArgumentsView, mode: SelectionMode) -> Result<
    ControlIntentView,
    ControlErrorView,
> {
    match a.unit_ids {
        Some(ids) => Ok(ControlIntentView::SelectUnits { unit_ids: ids, mode }),
        None => Err(missing(kind, "unitIds"@)),
    }
}

/// The intent a request of `kind` makes: the first argument its intent
/// needs and lacks is reported missing, and a kind outside the vocabulary
/// is unknown. A recall is replacing unless it says it is additive.
pub open spec fn spec_control_intent(kind: Seq<char>, a: ControlArgumentsView) -> Result<
    ControlIntentView,
    ControlErrorView,
> {
    if kind == "fitCamera"@ {
        Ok(ControlIntentView::FitCamera)
    } else if kind == "panCamera"@ {
        if !a.has_delta_x {
            Err(missing(kind, "deltaXMm"@))
        } else if !a.has_delta_y {
            Err(missing(kind, "deltaYMm"@))
        } else {
            Ok(ControlIntentView::PanCamera)
        }
    } else if kind == "zoomCamera"@ {
        if !a.has_factor {
            Err(missing(kind, "factor"@))
        } else {
            Ok(ControlIntentView::ZoomCamera)
        }
    } else if kind == "selectReplace"@ {
        select_intent(kind, a, SelectionMode::Replace)
    } else if kind == "selectAdd"@ {
        select_intent(kind, a, SelectionMode::Add)
    } else if kind == "selectToggle"@ {
        select_intent(kind, a, SelectionMode::Toggle)
    } else if kind == "clearSelection"@ {
        Ok(ControlIntentView::ClearSelection)
    } else if kind == "assignControlGroup"@ {
        match a.group {
            Some(group) => Ok(ControlIntentView::AssignControlGroup { group }),
            None => Err(missing(kind, "group"@)),
        }
    } else if kind == "recallControlGroup"@ {
        match a.group {
            Some(group) => Ok(
                ControlIntentView::RecallControlGroup {
                    group,
                    additive: match a.additive {
                        Some(b) => b,
                        None => false,
                    },
                },
            ),
            None => Err(missing(kind, "group"@)),
        }
    } else if kind == "setOrderPreview"@ {
        match a.active {
            Some(active) => Ok(ControlIntentView::SetOrderPreview { active }),
            None => Err(missing(kind, "active"@)),
        }
    } else if kind == "moveSelected"@ {
        match (a.x_mm, a.y_mm) {
            (None, _) => Err(missing(kind, "xMm"@)),
            (Some(_), None) => Err(missing(kind, "yMm"@)),
            (Some(x), Some(y)) => Ok(
                ControlIntentView::MoveSelected { destination: BattlePoint { x_mm: x, y_mm: y } },
            ),
        }
    } else if kind == "engageSelected"@ {
        match a.target_unit_id {
            Some(id) => Ok(ControlIntentView::EngageSelected { target_unit_id: id }),
            None => Err(missing(kind, "targetUnitId"@)),
        }
    } else if kind == "stopSelected"@ {
        Ok(ControlIntentView::StopSelected)
    } else {
        Err(ControlErrorView::UnknownIntent(kind))
    }
}

pub open spec fn intent_result(r: Result<ControlIntent, TacticalControlError>) -> Result<
    ControlIntentView,
    ControlErrorView,
> {
    match r {
        Ok(intent) => Ok(intent@),
        Err(e) => Err(e@),
    }
}

fn missing_argument(kind: &str, argument: &str) -> (error: TacticalControlError)
    ensures
        error@ == missing(kind@, argument@),
{
    TacticalControlError::MissingArgument { intent: owned(kind), argument: owned(argument) }
}

fn select(kind: &str, unit_ids: Option<Vec<String>>, mode: SelectionMode) -> (intent: Result<
    ControlIntent,
    TacticalControlError,
>)
    ensures
        intent_result(intent) == (match unit_ids {
            Some(ids) => Ok::<ControlIntentView, ControlErrorView>(
                ControlIntentView::SelectUnits { unit_ids: text_views(ids@), mode },
            ),
            None => Err(missing(kind@, "unitIds"@)),
        }),
{
    match unit_ids {
        Some(ids) => Ok(ControlIntent::SelectUnits { unit_ids: ids, mode }),
        None => Err(missing_argument(kind, "unitIds")),
    }
}

/// Reads a control request of `kind`; see `spec_control_intent`.
pub fn control_intent(kind: &str, arguments: ControlArguments) -> (intent: Result<
    ControlIntent,
    TacticalControlError,
>)
    ensures
        intent_result(intent) == spec_control_intent(kind@, arguments@),
{
    let ghost a = arguments@;
    if text_is(kind, "fitCamera") {
        Ok(ControlIntent::FitCamera)
    } else if text_is(kind, "panCamera") {
        if !arguments.has_delta_x {
            Err(missing_argument(kind, "deltaXMm"))
        } else if !arguments.has_delta_y {
            Err(missing_argument(kind, "deltaYMm"))
        } else {
            Ok(ControlIntent::PanCamera)
        }
    } else if text_is(kind, "zoomCamera") {
        if !arguments.has_factor {
            Err(missing_argument(kind, "factor"))
        } else {
            Ok(ControlIntent::ZoomCamera)
        }
    } else if text_is(kind, "selectReplace") {
        select(kind, arguments.unit_ids, SelectionMode::Replace)
    } else if text_is(kind, "selectAdd") {
        select(kind, arguments.unit_ids, SelectionMode::Add)
    } else if text_is(kind, "selectToggle") {
        select(kind, arguments.unit_ids, SelectionMode::Toggle)
    } else if text_is(kind, "clearSelection") {
        Ok(ControlIntent::ClearSelection)
    } else if text_is(kind, "assignControlGroup") {
        match arguments.group {
            Some(group) => Ok(ControlIntent::AssignControlGroup { group }),
            None => Err(missing_argument(kind, "group")),
        }
    } else if text_is(kind, "recallControlGroup") {
        match arguments.group {
            Some(group) => {
                let additive = match arguments.additive {
                    Some(b) => b,
                    None => false,
                };
                Ok(ControlIntent::RecallControlGroup { group, additive })
            },
            None => Err(missing_argument(kind, "group")),
        }
    } else if text_is(kind, "setOrderPreview") {
        match arguments.active {
            Some(active) => Ok(ControlIntent::SetOrderPreview { active }),
            None => Err(missing_argument(kind, "active")),
        }
    } else if text_is(kind, "moveSelected") {
        match (arguments.x_mm, arguments.y_mm) {
            (None, _) => Err(missing_argument(kind, "xMm")),
            (Some(_), None) => Err(missing_argument(kind, "yMm")),
            (Some(x), Some(y)) => Ok(
                ControlIntent::MoveSelected { destination: BattlePoint { x_mm: x, y_mm: y } },
            ),
        }
    } else if text_is(kind, "engageSelected") {
        match arguments.target_unit_id {
            Some(id) => Ok(ControlIntent::EngageSelected { target_unit_id: id }),
            None => Err(missing_argument(kind, "targetUnitId")),
        }
    } else if text_is(kind, "stopSelected") {
        Ok(ControlIntent::StopSelected)
    } else {
        Err(TacticalControlError::UnknownIntent(owned(kind)))
    }
}

} // verus!

//! The preview panel: what it auditions a track with (program and controllers),
//! as read from the score and as overridden by the user.
use vstd::prelude::*;

verus! {

/// What the preview panel edits.
#[derive(Clone, Copy, Debug, PartialEq, Eq, Structural)]
pub enum PreviewTarget {
    Program,
    Volume,
    Pan,
    Expression,
    Mod,
}

impl Default for PreviewTarget {
    /// The program is selected first.
    fn default() -> (r: PreviewTarget)
        ensures
            r == PreviewTarget::Program,
    {
        PreviewTarget::Program
    }
}

/// The controller, default value and command name of a controller target.
#[derive(Clone, Copy, Debug)]
pub struct PreviewControlSpec {
    pub target: PreviewTarget,
    pub cc: u8,
    pub default_value: u8,
    pub canonical_label: &'static str,
}

impl PreviewTarget {
    /// The target chosen by a digit key: `1` program, `2` volume, `3` pan,
    /// `4` expression, `5` mod.
    pub open spec fn spec_from_index(index: char) -> Option<PreviewTarget> {
        if index == '1' {
            Some(PreviewTarget::Program)
        } else if index == '2' {
            Some(PreviewTarget::Volume)
        } else if index == '3' {
            Some(PreviewTarget::Pan)
        } else if index == '4' {
            Some(PreviewTarget::Expression)
        } else if index == '5' {
            Some(PreviewTarget::Mod)
        } else {
            None
        }
    }

    pub fn from_index(index: char) -> (r: Option<PreviewTarget>)
        ensures
            r == Self::spec_from_index(index),
    {
        match index {
            '1' => Some(PreviewTarget::Program),
            '2' => Some(PreviewTarget::Volume),
            '3' => Some(PreviewTarget::Pan),
            '4' => Some(PreviewTarget::Expression),
            '5' => Some(PreviewTarget::Mod),
            _ => None,
        }
    }

    pub open spec fn spec_label(self) -> Seq<char> {
        match self {
            PreviewTarget::Program => "PC"@,
            PreviewTarget::Volume => "VOL"@,
            PreviewTarget::Pan => "PAN"@,
            PreviewTarget::Expression => "EXP"@,
            PreviewTarget::Mod => "MOD"@,
        }
    }

    /// The short name shown in the panel.
    pub fn label(self) -> (r: &'static str)
        ensures
            r@ == self.spec_label(),
    {
        match self {
            PreviewTarget::Program => "PC",
            PreviewTarget::Volume => "VOL",
            PreviewTarget::Pan => "PAN",
            PreviewTarget::Expression => "EXP",
            PreviewTarget::Mod => "MOD",
        }
    }

    /// `(controller, default value, command name)` of a controller target; the
    /// program has none.
    pub open spec fn spec_control(self) -> Option<(u8, u8, Seq<char>)> {
        match self {
            PreviewTarget::Program => None,
            PreviewTarget::Volume => Some((7u8, 100u8, "volume"@)),
            PreviewTarget::Pan => Some((10u8, 64u8, "pan"@)),
            PreviewTarget::Expression => Some((11u8, 100u8, "expression"@)),
            PreviewTarget::Mod => Some((1u8, 0u8, "mod"@)),
        }
    }

    /// The controller that the target sets, if it is one.
    pub fn control_spec(self) -> (r: Option<PreviewControlSpec>)
        ensures
            match self.spec_control() {
                None => r is None,
                Some((cc, d, l)) => r matches Some(s) && s.target == self && s.cc == cc
                    && s.default_value == d && s.canonical_label@ == l,
            },
    {
        match self {
            PreviewTarget::Program => None,
            PreviewTarget::Volume => Some(
                PreviewControlSpec { target: self, cc: 7, default_value: 100, canonical_label: "volume" },
            ),
            PreviewTarget::Pan => Some(
                PreviewControlSpec { target: self, cc: 10, default_value: 64, canonical_label: "pan" },
            ),
            PreviewTarget::Expression => Some(
                PreviewControlSpec {
                    target: self,
                    cc: 11,
                    default_value: 100,
                    canonical_label: "expression",
                },
            ),
            PreviewTarget::Mod => Some(
                PreviewControlSpec { target: self, cc: 1, default_value: 0, canonical_label: "mod" },
            ),
        }
    }
}

/// A controller's value as the score sets it and as the user overrides it.
#[derive(Clone, Copy, Debug, PartialEq, Eq, Structural)]
pub struct PreviewControlState {
    pub source: Option<u8>,
    pub override_value: Option<u8>,
}

/// The value in effect: the override, else the score's value, else `default`.
pub open spec fn spec_effective_value(s: PreviewControlState, default: u8) -> u8 {
    match s.override_value {
        Some(v) => v,
        None => match s.source {
            Some(v) => v,
            None => default,
        },
    }
}

impl Default for PreviewControlState {
    /// Neither set by the score nor overridden.
    fn default() -> (r: PreviewControlState)
        ensures
            r.source is None,
            r.override_value is None,
    {
        PreviewControlState { source: None, override_value: None }
    }
}

impl PreviewControlState {
    /// The value in effect for the controller `spec`.
    pub fn effective_value(self, spec: PreviewControlSpec) -> (r: u8)
        ensures
            r == spec_effective_value(self, spec.default_value),
    {
        match self.override_value {
            Some(v) => v,
            None => match self.source {
                Some(v) => v,
                None => spec.default_value,
            },
        }
    }
}

/// The four controllers of the preview.
#[derive(Clone, Copy, Debug, PartialEq, Eq, Structural)]
pub struct PreviewControls {
    pub volume: PreviewControlState,
    pub pan: PreviewControlState,
    pub expression: PreviewControlState,
    pub mod_wheel: PreviewControlState,
}

impl Default for PreviewControls {
    /// No controller set or overridden.
    fn default() -> (r: PreviewControls)
        ensures
            r == PreviewControls::spec_empty(),
    {
        let s = PreviewControlState { source: None, override_value: None };
        PreviewControls { volume: s, pan: s, expression: s, mod_wheel: s }
    }
}

impl PreviewControls {
    pub open spec fn spec_empty() -> PreviewControls {
        let s = PreviewControlState { source: None, override_value: None };
        PreviewControls { volume: s, pan: s, expression: s, mod_wheel: s }
    }

    pub open spec fn spec_get(self, target: PreviewTarget) -> Option<PreviewControlState> {
        match target {
            PreviewTarget::Program => None,
            PreviewTarget::Volume => Some(self.volume),
            PreviewTarget::Pan => Some(self.pan),
            PreviewTarget::Expression => Some(self.expression),
            PreviewTarget::Mod => Some(self.mod_wheel),
        }
    }

    /// The state of a controller target (none for the program).
    pub fn get(&self, target: PreviewTarget) -> (r: Option<PreviewControlState>)
        ensures
            r == self.spec_get(target),
    {
        match target {
            PreviewTarget::Program => None,
            PreviewTarget::Volume => Some(self.volume),
            PreviewTarget::Pan => Some(self.pan),
            PreviewTarget::Expression => Some(self.expression),
            PreviewTarget::Mod => Some(self.mod_wheel),
        }
    }

    pub open spec fn spec_set(self, target: PreviewTarget, state: PreviewControlState) -> PreviewControls {
        match target {
            PreviewTarget::Program => self,
            PreviewTarget::Volume => PreviewControls { volume: state, ..self },
            PreviewTarget::Pan => PreviewControls { pan: state, ..self },
            PreviewTarget::Expression => PreviewControls { expression: state, ..self },
            PreviewTarget::Mod => PreviewControls { mod_wheel: state, ..self },
        }
    }

    /// Replaces the state of a controller target; the program has none, and
    /// nothing changes for it.
    pub fn set(&mut self, target: PreviewTarget, state: PreviewControlState)
        ensures
            *final(self) == old(self).spec_set(target, state),
    {
        match target {
            PreviewTarget::Program => {},
            PreviewTarget::Volume => self.volume = state,
            PreviewTarget::Pan => self.pan = state,
            PreviewTarget::Expression => self.expression = state,
            PreviewTarget::Mod => self.mod_wheel = state,
        }
    }

    /// Drops every override and keeps what the score sets.
    pub fn clear_overrides(&mut self)
        ensures
            final(self).volume == (PreviewControlState { override_value: None, ..old(self).volume }),
            final(self).pan == (PreviewControlState { override_value: None, ..old(self).pan }),
            final(self).expression == (PreviewControlState {
                override_value: None,
                ..old(self).expression
            }),
            final(self).mod_wheel == (PreviewControlState { override_value: None, ..old(self).mod_wheel }),
    {
        self.volume.override_value = None;
        self.pan.override_value = None;
        self.expression.override_value = None;
        self.mod_wheel.override_value = None;
    }

    pub open spec fn spec_has_overrides(self) -> bool {
        self.volume.override_value is Some || self.pan.override_value is Some
            || self.expression.override_value is Some || self.mod_wheel.override_value is Some
    }

    /// Whether any controller is overridden.
    pub fn has_overrides(&self) -> (b: bool)
        ensures
            b == self.spec_has_overrides(),
    {
        self.volume.override_value.is_some() || self.pan.override_value.is_some()
            || self.expression.override_value.is_some() || self.mod_wheel.override_value.is_some()
    }
}

/// The state of the preview panel.
#[derive(Clone, Debug)]
pub struct PreviewPanelState {
    pub open: bool,
    pub track_header_row: Option<usize>,
    pub track_name: String,
    pub channel: u8,
    pub selected_target: PreviewTarget,
    pub source_program: Option<u8>,
    pub override_program: Option<u8>,
    pub controls: PreviewControls,
    pub velocity: u8,
    /// The keys held down, each once.
    pub active_keys: Vec<char>,
}

impl Default for PreviewPanelState {
    /// A closed panel with nothing read, overridden or held.
    fn default() -> (r: PreviewPanelState)
        ensures
            !r.open,
            r.track_header_row is None,
            r.track_name@ == Seq::<char>::empty(),
            r.channel == 0,
            r.selected_target == PreviewTarget::Program,
            r.source_program is None,
            r.override_program is None,
            r.controls == PreviewControls::spec_empty(),
            r.velocity == 0,
            r.active_keys@ == Seq::<char>::empty(),
    {
        PreviewPanelState {
            open: false,
            track_header_row: None,
            track_name: String::new(),
            channel: 0,
            selected_target: PreviewTarget::Program,
            source_program: None,
            override_program: None,
            controls: PreviewControls::default(),
            velocity: 0,
            active_keys: Vec::new(),
        }
    }
}

impl PreviewPanelState {
    /// The program in effect: the override, else the score's program.
    pub fn effective_program(&self) -> (r: Option<u8>)
        ensures
            r == (match self.override_program {
                Some(p) => Some(p),
                None => self.source_program,
            }),
    {
        match self.override_program {
            Some(p) => Some(p),
            None => self.source_program,
        }
    }

    /// The value in effect of a controller target (none for the program).
    pub fn effective_control_value(&self, target: PreviewTarget) -> (r: Option<u8>)
        ensures
            r == (match (target.spec_control(), self.controls.spec_get(target)) {
                (Some((_, d, _)), Some(s)) => Some(spec_effective_value(s, d)),
                _ => None,
            }),
    {
        let spec = match target.control_spec() {
            Some(s) => s,
            None => return None,
        };
        match self.controls.get(target) {
            Some(state) => Some(state.effective_value(spec)),
            None => None,
        }
    }

    /// Drops the program override and every controller override.
    pub fn reset_overrides(&mut self)
        ensures
            final(self).override_program is None,
            !final(self).controls.spec_has_overrides(),
            final(self).controls.volume.source == old(self).controls.volume.source,
            final(self).controls.pan.source == old(self).controls.pan.source,
            final(self).controls.expression.source == old(self).controls.expression.source,
            final(self).controls.mod_wheel.source == old(self).controls.mod_wheel.source,
            final(self).source_program == old(self).source_program,
            final(self).open == old(self).open,
            final(self).track_header_row == old(self).track_header_row,
            final(self).track_name == old(self).track_name,
            final(self).channel == old(self).channel,
            final(self).selected_target == old(self).selected_target,
            final(self).velocity == old(self).velocity,
            final(self).active_keys == old(self).active_keys,
    {
        self.override_program = None;
        self.controls.clear_overrides();
    }

    /// Whether the program or any controller is overridden.
    pub fn has_overrides(&self) -> (b: bool)
        ensures
            b == (self.override_program is Some || self.controls.spec_has_overrides()),
    {
        self.override_program.is_some() || self.controls.has_overrides()
    }
}

} // verus!

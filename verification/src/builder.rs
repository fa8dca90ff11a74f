//! The command builder: the stateful accumulator that collects commands,
//! produces the single-shot or batch request body, and evaluates the
//! transport's outcome into a typed result.
//!
//! The builder is consumed by value when it produces a request body, so a
//! builder can never be executed twice nor appended to after execution:
//! reuse is impossible by construction rather than detected at run time.

use vstd::prelude::*;
use vstd::utf8::encode_utf8;
use crate::command::{Command, CommandModel, ResponseEnvelope, wf_command};
use crate::encode::{
    spec_encode_command, spec_encode_batch, encode_command, encode_batch, commands_model,
};
use crate::decode::{spec_decode, decode_response};
use crate::error::DivoomAPIError;
use crate::value::{ParamValue, ValueModel};

verus! {

/// Whether the builder sends one bare command object or a batch envelope.
#[derive(Clone, Copy, PartialEq, Eq, Structural)]
pub enum BuilderMode {
    SingleShot,
    Batch,
}

/// Mathematical model of the builder: its mode and accumulated commands.
pub struct BuilderModel {
    pub mode: BuilderMode,
    pub commands: Seq<CommandModel>,
}

/// The rotation a device screen can be set to.
#[derive(Clone, Copy)]
pub enum DivoomDeviceRotationAngle {
    Rotate0,
    Rotate90,
    Rotate180,
    Rotate270,
}

impl DivoomDeviceRotationAngle {
    /// The integer the wire protocol uses for this rotation.
    pub open spec fn spec_wire_value(self) -> int {
        match self {
            DivoomDeviceRotationAngle::Rotate0 => 0,
            DivoomDeviceRotationAngle::Rotate90 => 1,
            DivoomDeviceRotationAngle::Rotate180 => 2,
            DivoomDeviceRotationAngle::Rotate270 => 3,
        }
    }

    /// Returns the wire integer for this rotation.
    pub fn wire_value(self) -> (r: i64)
        ensures
            r as int == self.spec_wire_value(),
    {
        match self {
            DivoomDeviceRotationAngle::Rotate0 => 0,
            DivoomDeviceRotationAngle::Rotate90 => 1,
            DivoomDeviceRotationAngle::Rotate180 => 2,
            DivoomDeviceRotationAngle::Rotate270 => 3,
        }
    }
}

/// Whether the device mirrors its screen.
#[derive(Clone, Copy)]
pub enum DivoomDeviceMirrorMode {
    Off,
    On,
}

impl DivoomDeviceMirrorMode {
    /// The integer the wire protocol uses for this mirror mode.
    pub open spec fn spec_wire_value(self) -> int {
        match self {
            DivoomDeviceMirrorMode::Off => 0,
            DivoomDeviceMirrorMode::On => 1,
        }
    }

    /// Returns the wire integer for this mirror mode.
    pub fn wire_value(self) -> (r: i64)
        ensures
            r as int == self.spec_wire_value(),
    {
        match self {
            DivoomDeviceMirrorMode::Off => 0,
            DivoomDeviceMirrorMode::On => 1,
        }
    }
}

/// The model of a one-parameter command with an integer value.
pub open spec fn int_command(name: Seq<char>, key: Seq<char>, value: int) -> CommandModel {
    CommandModel {
        name: encode_utf8(name),
        params: seq![(encode_utf8(key), ValueModel::Int(value))],
    }
}

/// The stateful accumulator of commands bound for one request.
pub struct PixooCommandBuilder {
    mode: BuilderMode,
    commands: Vec<Command>,
}

impl View for PixooCommandBuilder {
    type V = BuilderModel;

    closed spec fn view(&self) -> BuilderModel {
        BuilderModel { mode: self.mode, commands: commands_model(self.commands@) }
    }
}

/// A builder may hold several commands only in batch mode.
pub open spec fn wf_builder(b: BuilderModel) -> bool {
    &&& b.mode == BuilderMode::SingleShot ==> b.commands.len() <= 1
    &&& forall|i: int| 0 <= i < b.commands.len() ==> wf_command(#[trigger] b.commands[i])
}

/// The request body the builder stands for: the bare command object in
/// single-shot mode, the batch envelope in batch mode.
pub open spec fn spec_request_body(b: BuilderModel) -> Seq<u8> {
    if b.mode == BuilderMode::SingleShot {
        spec_encode_command(b.commands[0])
    } else {
        spec_encode_batch(b.commands)
    }
}

impl PixooCommandBuilder {
    /// Starts a single-shot builder: it will carry exactly one command.
    pub fn start() -> (r: PixooCommandBuilder)
        ensures
            r@.mode == BuilderMode::SingleShot,
            r@.commands == Seq::<CommandModel>::empty(),
            wf_builder(r@),
    {
        let r = PixooCommandBuilder { mode: BuilderMode::SingleShot, commands: Vec::new() };
        proof {
            assert(r@.commands =~= Seq::<CommandModel>::empty());
        }
        r
    }

    /// Starts a batch builder with an empty command sequence.
    ///
    /// The device firmware has a per-request ceiling on how many commands
    /// one batch may carry; the protocol does not state it, so the builder
    /// does not enforce one. Splitting an oversized batch is the caller's
    /// responsibility.
    pub fn start_batch() -> (r: PixooCommandBuilder)
        ensures
            r@.mode == BuilderMode::Batch,
            r@.commands == Seq::<CommandModel>::empty(),
            wf_builder(r@),
    {
        let r = PixooCommandBuilder { mode: BuilderMode::Batch, commands: Vec::new() };
        proof {
            assert(r@.commands =~= Seq::<CommandModel>::empty());
        }
        r
    }

    /// Whether this builder sends a batch envelope.
    pub fn is_batch(&self) -> (r: bool)
        ensures
            r == (self@.mode == BuilderMode::Batch),
    {
        match self.mode {
            BuilderMode::Batch => true,
            BuilderMode::SingleShot => false,
        }
    }

    /// How many commands are queued.
    pub fn command_count(&self) -> (r: usize)
        ensures
            r == self@.commands.len(),
    {
        self.commands.len()
    }

    /// Appends one command, preserving append order. A single-shot builder
    /// accepts only its first command; batch mode accepts any number.
    pub fn append_command(self, cmd: Command) -> (r: PixooCommandBuilder)
        requires
            wf_command(cmd@),
            self@.mode == BuilderMode::Batch || self@.commands.len() == 0,
        ensures
            r@.mode == self@.mode,
            r@.commands == self@.commands.push(cmd@),
            wf_builder(self@) ==> wf_builder(r@),
    {
        let mut commands = self.commands;
        commands.push(cmd);
        let r = PixooCommandBuilder { mode: self.mode, commands };
        proof {
            assert(r@.commands =~= self@.commands.push(cmd@));
        }
        r
    }

    /// Queues `Device/SetScreenRotationAngle` with the given rotation.
    pub fn set_device_rotation_angle(self, mode: DivoomDeviceRotationAngle) -> (r:
        PixooCommandBuilder)
        requires
            self@.mode == BuilderMode::Batch || self@.commands.len() == 0,
        ensures
            r@.mode == self@.mode,
            r@.commands == self@.commands.push(
                int_command(
                    "Device/SetScreenRotationAngle"@,
                    "Mode"@,
                    mode.spec_wire_value(),
                ),
            ),
            wf_builder(self@) ==> wf_builder(r@),
    {
        proof {
            reveal_strlit("Device/SetScreenRotationAngle");
        }
        let cmd = Command::new("Device/SetScreenRotationAngle").param(
            "Mode",
            ParamValue::Int(mode.wire_value()),
        );
        self.append_command(cmd)
    }

    /// Queues `Device/SetMirrorMode` with the given mirror mode.
    pub fn set_device_mirror_mode(self, mode: DivoomDeviceMirrorMode) -> (r: PixooCommandBuilder)
        requires
            self@.mode == BuilderMode::Batch || self@.commands.len() == 0,
        ensures
            r@.mode == self@.mode,
            r@.commands == self@.commands.push(
                int_command("Device/SetMirrorMode"@, "Mode"@, mode.spec_wire_value()),
            ),
            wf_builder(self@) ==> wf_builder(r@),
    {
        proof {
            reveal_strlit("Device/SetMirrorMode");
        }
        let cmd = Command::new("Device/SetMirrorMode").param(
            "Mode",
            ParamValue::Int(mode.wire_value()),
        );
        self.append_command(cmd)
    }

    /// Queues `Channel/SetBrightness` with the given brightness.
    pub fn set_device_brightness(self, brightness: i32) -> (r: PixooCommandBuilder)
        requires
            self@.mode == BuilderMode::Batch || self@.commands.len() == 0,
        ensures
            r@.mode == self@.mode,
            r@.commands == self@.commands.push(
                int_command("Channel/SetBrightness"@, "Brightness"@, brightness as int),
            ),
            wf_builder(self@) ==> wf_builder(r@),
    {
        proof {
            reveal_strlit("Channel/SetBrightness");
        }
        let cmd = Command::new("Channel/SetBrightness").param(
            "Brightness",
            ParamValue::Int(brightness as i64),
        );
        self.append_command(cmd)
    }

    /// Serializes the accumulated commands into the one request body,
    /// consuming the builder: after this, no command can be appended and no
    /// second body can be produced from the same builder.
    pub fn request_body(self) -> (r: Vec<u8>)
        requires
            self@.mode == BuilderMode::Batch || self@.commands.len() == 1,
        ensures
            r@ == spec_request_body(self@),
    {
        match self.mode {
            BuilderMode::SingleShot => {
                let mut commands = self.commands;
                let cmd = commands.remove(0);
                encode_command(cmd)
            },
            BuilderMode::Batch => encode_batch(self.commands),
        }
    }
}

/// Evaluates one transport outcome into the typed result of an execution:
/// a transport failure is passed through, a body that is not a well-formed
/// envelope is a decode error, a non-zero device error code is a server
/// error carrying exactly that code, and otherwise the decoded envelope is
/// returned. This is the uniform check applied after every call.
pub fn complete_execution(outcome: Result<Vec<u8>, String>) -> (r: Result<
    ResponseEnvelope,
    DivoomAPIError,
>)
    ensures
        match outcome {
            Err(msg) => r matches Err(DivoomAPIError::TransportError(m)) && m@ == msg@,
            Ok(body) => match spec_decode(body@) {
                None => r matches Err(DivoomAPIError::DecodeError),
                Some(e) => {
                    if e.error_code != 0 {
                        &&& r matches Err(DivoomAPIError::ServerError(c))
                        &&& c as int == e.error_code
                    } else {
                        r matches Ok(env) && env@ == e
                    }
                },
            },
        },
{
    match outcome {
        Err(msg) => Err(DivoomAPIError::TransportError(msg)),
        Ok(body) => match decode_response(body.as_slice()) {
            None => Err(DivoomAPIError::DecodeError),
            Some(env) => {
                if env.error_code != 0 {
                    Err(DivoomAPIError::ServerError(env.error_code))
                } else {
                    Ok(env)
                }
            },
        },
    }
}

} // verus!

//! Drive a BSL/SeaCAD DBK2JP galvo laser controller over USB.
//!
//! THE RULE THAT MATTERS: session/control commands go on EP 0x06; anything that
//! configures a job goes inline in the EP 0x02 batch ahead of the vectors. The
//! board ACKs parameter commands sent on EP 0x06 and then silently ignores them.
//!
//! A `Job` turns what it is asked for into a `Script`; a `Run` carries the script
//! out on a `Board`, round by round, and says how long to wait between rounds. Real
//! arithmetic and waiting are the caller's; which bytes go out, in which order, and
//! what is concluded from the answers, is here.

pub mod cli;
pub mod course_laws;
pub mod cyusb;
pub mod devices;
pub mod double;
pub mod driver_laws;
pub mod field;
pub mod field_laws;
pub mod job;
pub mod job_laws;
pub mod laser;
pub mod limits;
pub mod markcfg;
pub mod message_laws;
pub mod pace;
pub mod path_laws;
pub mod protocol;
pub mod run_laws;
pub mod script;
pub mod setting_laws;
pub mod status;
pub mod stream;
pub mod stream_laws;
pub mod survey;
pub mod text;
pub mod unlock;
pub mod usb;
pub mod wire_laws;

pub use double::Double;
pub use field::Field;
pub use job::Job;
pub use laser::{Laser, Power};
pub use limits::{Limits, WiggleLoad};
pub use protocol::{cmd, parse, set_power_0210, set_power_raw};
pub use stream::{Emitted, PathOpts, Speed, MAX_SEGS};
pub use usb::{Board, BoardError, Transport, PID, VID};

use vstd::prelude::*;

verus! {

/// Format of the structured output written for each reading.
#[derive(Debug, Clone, Copy, PartialEq, Eq, Structural)]
pub enum OutputFormat {
    Jsonl,
}

/// Resolved command-line configuration.
#[derive(Debug, Clone)]
pub struct Args {
    /// Serial port to connect.
    pub port: Option<String>,
    /// Output format.
    pub output_format: OutputFormat,
    /// Base address of the speech synthesis service; readings are spoken when set.
    pub voicebox_url: Option<String>,
    /// Speaker identifier handed to the synthesis service.
    pub voicebox_speaker: usize,
    /// Name of the audio output device.
    pub audio_output_device_name: Option<String>,
}

#[derive(Debug, Clone, Copy, PartialEq, Eq, Structural)]
pub enum ArgsErr {
    PortNotSpecified,
}

impl Args {
    /// What is still missing before the monitor can start.
    pub fn error(&self) -> (r: Option<ArgsErr>)
        ensures
            r == (if self.port.is_none() { Some(ArgsErr::PortNotSpecified) } else { None::<ArgsErr> }),
    {
        if self.port.is_none() {
            Some(ArgsErr::PortNotSpecified)
        } else {
            None
        }
    }
}

/// Why the monitor could not start.
#[derive(Debug, Clone, PartialEq, Eq)]
pub enum AppErr {
    Aborted,
    NoAvailablePorts,
    SerialPortError(String),
    AudioDeviceError(String),
}

/// Whether the user must be asked for a port: none was given and the
/// system's ports were listed, at least one of them.
pub fn prompt_needed(args: &Args, ports: &Result<Vec<String>, String>) -> (r: bool)
    ensures
        r == (args.port.is_none() && (ports matches Ok(p) && p@.len() > 0)),
{
    match ports {
        Ok(p) => args.error().is_some() && p.len() > 0,
        Err(_) => false,
    }
}

/// Resolves the port to connect to. `ports` is the listing of the system's
/// ports; `picked` is the prompt's answer, consulted only when a prompt was
/// needed (`None` when the user quit).
pub fn finalize_args(args: Args, ports: &Result<Vec<String>, String>, picked: Option<String>) -> (r: Result<Args, AppErr>)
    ensures
        args.port.is_some() ==> r == Ok::<Args, AppErr>(args),
        args.port.is_none() ==> match ports {
            Err(e) => (r matches Err(AppErr::SerialPortError(m)) && m@ == e@),
            Ok(p) => if p@.len() == 0 {
                r == Err::<Args, AppErr>(AppErr::NoAvailablePorts)
            } else {
                match picked {
                    None => r == Err::<Args, AppErr>(AppErr::Aborted),
                    Some(name) => r == Ok::<Args, AppErr>(Args { port: Some(name), ..args }),
                }
            },
        },
{
    match args.error() {
        None => Ok(args),
        Some(ArgsErr::PortNotSpecified) => match ports {
            Err(e) => Err(AppErr::SerialPortError(e.clone())),
            Ok(p) => {
                if p.len() == 0 {
                    Err(AppErr::NoAvailablePorts)
                } else {
                    match picked {
                        None => Err(AppErr::Aborted),
                        Some(name) => Ok(Args { port: Some(name), ..args }),
                    }
                }
            },
        },
    }
}

} // verus!

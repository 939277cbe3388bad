//! Command-line overrides of the configuration.

use vstd::prelude::*;
use crate::config::{sv, Config, ConfigView};

verus! {

/// The command-line options (the background opacity, a float, is applied
/// by the application itself).
#[derive(Debug, Clone)]
pub struct Cli {
    /// Dock position: top | bottom | left | right.
    pub position: Option<String>,
    /// Icon size in pixels.
    pub icon_size: Option<i32>,
    /// Internal padding of the dock.
    pub padding: Option<i32>,
    /// Space between application icons.
    pub spacing: Option<i32>,
    /// Corner radius of the dock.
    pub radius: Option<i32>,
    /// Target a specific monitor by connector name (e.g. DP-6).
    pub output: Option<String>,
    /// Command run by the launcher button.
    pub launcher_command: Option<String>,
    /// Show the launcher button.
    pub launcher: bool,
    /// Hide the launcher button.
    pub no_launcher: bool,
    /// Reserve screen space so other windows don't overlap the dock.
    pub exclusive_zone: bool,
    /// Don't reserve screen space.
    pub no_exclusive_zone: bool,
    /// Enable smart view (auto-hide until the cursor reaches the edge).
    pub smart_view: bool,
    /// Path to an extra CSS file appended to the stylesheet.
    pub style: Option<String>,
    /// Layer shell layer: overlay | top | bottom | background.
    pub layer: Option<String>,
    /// Margin between the dock and the screen edge.
    pub margin: Option<i32>,
    /// Align the margin with Hyprland's gaps_out.
    pub system_gap: bool,
    /// Do not align the margin with Hyprland's gaps_out.
    pub no_system_gap: bool,
    /// Toggle the visibility of a running rust-dock instance and exit.
    pub toggle: bool,
}

/// `v` when given, `cur` otherwise.
pub open spec fn or_keep<T>(v: Option<T>, cur: T) -> T {
    match v {
        Some(x) => x,
        None => cur,
    }
}

/// The configuration with the command-line options applied: every given
/// option replaces its setting; a launcher command also shows the
/// launcher; `--no-launcher`, `--no-exclusive-zone` and `--no-system-gap`
/// win over their positive forms.
pub open spec fn spec_apply(cli: Cli, c: ConfigView) -> ConfigView {
    ConfigView {
        position: or_keep(sv(cli.position), c.position),
        icon_size: or_keep(cli.icon_size, c.icon_size),
        padding: or_keep(cli.padding, c.padding),
        spacing: or_keep(cli.spacing, c.spacing),
        radius: or_keep(cli.radius, c.radius),
        output: if cli.output is Some {
            sv(cli.output)
        } else {
            c.output
        },
        launcher_command: or_keep(sv(cli.launcher_command), c.launcher_command),
        no_launcher: if cli.no_launcher {
            true
        } else if cli.launcher || cli.launcher_command is Some {
            false
        } else {
            c.no_launcher
        },
        exclusive_zone: if cli.no_exclusive_zone {
            false
        } else if cli.exclusive_zone {
            true
        } else {
            c.exclusive_zone
        },
        smart_view: cli.smart_view || c.smart_view,
        style: if cli.style is Some {
            sv(cli.style)
        } else {
            c.style
        },
        layer: or_keep(sv(cli.layer), c.layer),
        margin: or_keep(cli.margin, c.margin),
        system_gap_used: if cli.no_system_gap {
            false
        } else if cli.system_gap {
            true
        } else {
            c.system_gap_used
        },
        ..c
    }
}

/// A copy of an optional string.
fn copy_opt(o: &Option<String>) -> (r: Option<String>)
    ensures
        sv(r) == sv(*o),
{
    match o {
        Some(s) => Some(s.clone()),
        None => None,
    }
}

/// The given string, or a copy of the current one.
fn pick_string(v: &Option<String>, cur: &String) -> (r: String)
    ensures
        r@ == or_keep(sv(*v), cur@),
{
    match v {
        Some(x) => x.clone(),
        None => cur.clone(),
    }
}

/// The given optional string when given, or a copy of the current one.
fn pick_opt(v: &Option<String>, cur: &Option<String>) -> (r: Option<String>)
    ensures
        sv(r) == if v is Some {
            sv(*v)
        } else {
            sv(*cur)
        },
{
    if v.is_some() {
        copy_opt(v)
    } else {
        copy_opt(cur)
    }
}

/// The given number, or the current one.
fn pick_i32(v: Option<i32>, cur: i32) -> (r: i32)
    ensures
        r == or_keep(v, cur),
{
    match v {
        Some(x) => x,
        None => cur,
    }
}

impl Cli {
    /// Apply any provided options on top of an existing config.
    pub fn apply_to(&self, cfg: &mut Config)
        ensures
            final(cfg)@ == spec_apply(*self, old(cfg)@),
    {
        let position = pick_string(&self.position, &cfg.position);
        let launcher_command = pick_string(&self.launcher_command, &cfg.launcher_command);
        let layer = pick_string(&self.layer, &cfg.layer);
        let output = pick_opt(&self.output, &cfg.output);
        let style = pick_opt(&self.style, &cfg.style);
        let no_launcher = self.no_launcher || (!(self.launcher || self.launcher_command.is_some())
            && cfg.no_launcher);
        let exclusive_zone = !self.no_exclusive_zone && (self.exclusive_zone || cfg.exclusive_zone);
        let system_gap_used = !self.no_system_gap && (self.system_gap || cfg.system_gap_used);
        cfg.position = position;
        cfg.icon_size = pick_i32(self.icon_size, cfg.icon_size);
        cfg.padding = pick_i32(self.padding, cfg.padding);
        cfg.spacing = pick_i32(self.spacing, cfg.spacing);
        cfg.radius = pick_i32(self.radius, cfg.radius);
        cfg.output = output;
        cfg.launcher_command = launcher_command;
        cfg.no_launcher = no_launcher;
        cfg.exclusive_zone = exclusive_zone;
        cfg.smart_view = self.smart_view || cfg.smart_view;
        cfg.style = style;
        cfg.layer = layer;
        cfg.margin = pick_i32(self.margin, cfg.margin);
        cfg.system_gap_used = system_gap_used;
    }
}

} // verus!

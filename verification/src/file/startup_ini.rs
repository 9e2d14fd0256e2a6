//! Startup settings file (`startup.ini`): a fixed 24-byte binary record.

use vstd::prelude::*;
use vstd::string::StringExecFns;

use super::error::StartupIniError;
use super::show::append_decimal;
use super::text::decimal;
use super::le::{
    lemma_u32_roundtrip, push_u32, read_u32, u32_at, u32_bytes,
};

verus! {

/// Size of the startup settings file in bytes.
pub const STARTUP_INI_SIZE: usize = 24;

/// Game opening mode.
#[derive(Debug, Clone, Copy, PartialEq, Eq)]
pub enum OpeningMode {
    /// Normal mode
    Normal,
    /// Loop startup
    Loop,
    /// Skip opening
    Skip,
}

/// The stored value of each opening mode.
pub open spec fn opening_mode_value(m: OpeningMode) -> u8 {
    match m {
        OpeningMode::Normal => 0,
        OpeningMode::Loop => 1,
        OpeningMode::Skip => 2,
    }
}

impl OpeningMode {
    /// Converts a stored value to an opening mode.
    pub fn from_u8(value: u8) -> (r: Result<Self, StartupIniError>)
        ensures
            value <= 2 ==> (r matches Ok(m) && opening_mode_value(m) == value),
            value > 2 ==> r == Err::<Self, StartupIniError>(
                StartupIniError::InvalidOpeningMode(value),
            ),
    {
        match value {
            0 => Ok(OpeningMode::Normal),
            1 => Ok(OpeningMode::Loop),
            2 => Ok(OpeningMode::Skip),
            _ => Err(StartupIniError::InvalidOpeningMode(value)),
        }
    }

    /// The stored value of this mode.
    pub fn to_u8(self) -> (r: u8)
        ensures
            r == opening_mode_value(self),
    {
        match self {
            OpeningMode::Normal => 0,
            OpeningMode::Loop => 1,
            OpeningMode::Skip => 2,
        }
    }

    /// The display name of this mode.
    pub fn to_string(&self) -> (r: String)
        ensures
            r@ == opening_mode_name(*self),
    {
        match self {
            OpeningMode::Normal => String::from_str("Normal"),
            OpeningMode::Loop => String::from_str("Loop"),
            OpeningMode::Skip => String::from_str("Skip"),
        }
    }
}

impl Default for OpeningMode {
    fn default() -> (r: Self)
        ensures
            r == OpeningMode::Normal,
    {
        OpeningMode::Normal
    }
}

/// VGA mode.
#[derive(Debug, Clone, Copy, PartialEq, Eq)]
pub enum VgaMode {
    /// Default resolution
    Default,
    /// VGA compatible mode
    VgaCompatible,
}

/// The stored value of each VGA mode.
pub open spec fn vga_mode_value(m: VgaMode) -> u8 {
    match m {
        VgaMode::Default => 0,
        VgaMode::VgaCompatible => 1,
    }
}

impl VgaMode {
    /// Converts a stored value to a VGA mode.
    pub fn from_u8(value: u8) -> (r: Result<Self, StartupIniError>)
        ensures
            value <= 1 ==> (r matches Ok(m) && vga_mode_value(m) == value),
            value > 1 ==> r == Err::<Self, StartupIniError>(StartupIniError::InvalidVgaMode(value)),
    {
        match value {
            0 => Ok(VgaMode::Default),
            1 => Ok(VgaMode::VgaCompatible),
            _ => Err(StartupIniError::InvalidVgaMode(value)),
        }
    }

    /// The stored value of this mode.
    pub fn to_u8(self) -> (r: u8)
        ensures
            r == vga_mode_value(self),
    {
        match self {
            VgaMode::Default => 0,
            VgaMode::VgaCompatible => 1,
        }
    }

    /// The display name of this mode.
    pub fn to_string(&self) -> (r: String)
        ensures
            r@ == vga_mode_name(*self),
    {
        match self {
            VgaMode::Default => String::from_str("Default"),
            VgaMode::VgaCompatible => String::from_str("VGA Compatible"),
        }
    }
}

impl Default for VgaMode {
    fn default() -> (r: Self)
        ensures
            r == VgaMode::Default,
    {
        VgaMode::Default
    }
}

/// Rendering mode.
#[derive(Debug, Clone, Copy, PartialEq, Eq)]
pub enum RenderMode {
    /// VSYNC on
    VsyncOn,
    /// VSYNC off
    VsyncOff,
}

/// The stored value of each render mode.
pub open spec fn render_mode_value(m: RenderMode) -> u32 {
    match m {
        RenderMode::VsyncOn => 0,
        RenderMode::VsyncOff => 1,
    }
}

impl RenderMode {
    /// Converts a stored value to a render mode.
    pub fn from_u32(value: u32) -> (r: Result<Self, StartupIniError>)
        ensures
            value <= 1 ==> (r matches Ok(m) && render_mode_value(m) == value),
            value > 1 ==> r == Err::<Self, StartupIniError>(
                StartupIniError::InvalidRenderMode(value),
            ),
    {
        match value {
            0 => Ok(RenderMode::VsyncOn),
            1 => Ok(RenderMode::VsyncOff),
            _ => Err(StartupIniError::InvalidRenderMode(value)),
        }
    }

    /// The stored value of this mode.
    pub fn to_u32(self) -> (r: u32)
        ensures
            r == render_mode_value(self),
    {
        match self {
            RenderMode::VsyncOn => 0,
            RenderMode::VsyncOff => 1,
        }
    }

    /// The display name of this mode.
    pub fn to_string(&self) -> (r: String)
        ensures
            r@ == render_mode_name(*self),
    {
        match self {
            RenderMode::VsyncOn => String::from_str("VSYNC ON"),
            RenderMode::VsyncOff => String::from_str("VSYNC OFF"),
        }
    }
}

impl Default for RenderMode {
    fn default() -> (r: Self)
        ensures
            r == RenderMode::VsyncOn,
    {
        RenderMode::VsyncOn
    }
}

/// The display name of an opening mode.
pub open spec fn opening_mode_name(m: OpeningMode) -> Seq<char> {
    match m {
        OpeningMode::Normal => "Normal"@,
        OpeningMode::Loop => "Loop"@,
        OpeningMode::Skip => "Skip"@,
    }
}

/// The display name of a VGA mode.
pub open spec fn vga_mode_name(m: VgaMode) -> Seq<char> {
    match m {
        VgaMode::Default => "Default"@,
        VgaMode::VgaCompatible => "VGA Compatible"@,
    }
}

/// The display name of a render mode.
pub open spec fn render_mode_name(m: RenderMode) -> Seq<char> {
    match m {
        RenderMode::VsyncOn => "VSYNC ON"@,
        RenderMode::VsyncOff => "VSYNC OFF"@,
    }
}

/// The description of settings: one line per setting under a title line.
pub open spec fn ini_text(opening: OpeningMode, vga: VgaMode, render: RenderMode, rect: Seq<u32>) -> Seq<char> {
    "Startup INI:\n  Opening Mode: "@ + opening_mode_name(opening) + "\n  VGA Mode: "@ + vga_mode_name(vga)
        + "\n  Render Mode: "@ + render_mode_name(render) + "\n  Window Rect: ["@ + decimal(rect[0] as nat)
        + ", "@ + decimal(rect[1] as nat) + ", "@ + decimal(rect[2] as nat) + ", "@ + decimal(rect[3] as nat)
        + "]\n"@
}

/// Startup settings: opening mode (1 byte), VGA mode (1 byte), two reserved
/// bytes, render mode (4 bytes) and the settings dialog's window rectangle
/// (four 4-byte values), 24 bytes in all.
#[derive(Debug, Clone, PartialEq, Eq)]
pub struct StartupIni {
    opening_mode: OpeningMode,
    vga_mode: VgaMode,
    reserved: [u8; 2],
    render_mode: RenderMode,
    window_rect: [u32; 4],
}

/// The serialized form of the settings.
pub open spec fn ini_bytes(
    opening: OpeningMode,
    vga: VgaMode,
    reserved: Seq<u8>,
    render: RenderMode,
    rect: Seq<u32>,
) -> Seq<u8> {
    seq![opening_mode_value(opening), vga_mode_value(vga)] + reserved + u32_bytes(
        render_mode_value(render),
    ) + u32_bytes(rect[0]) + u32_bytes(rect[1]) + u32_bytes(rect[2]) + u32_bytes(rect[3])
}

impl Default for StartupIni {
    fn default() -> (r: Self)
        ensures
            r.spec_opening_mode() == OpeningMode::Normal,
            r.spec_vga_mode() == VgaMode::Default,
            r.spec_reserved() == seq![0u8, 0u8],
            r.spec_render_mode() == RenderMode::VsyncOn,
            r.spec_window_rect() == seq![0u32, 0u32, 0u32, 0u32],
    {
        let r = StartupIni {
            opening_mode: OpeningMode::Normal,
            vga_mode: VgaMode::Default,
            reserved: [0u8; 2],
            render_mode: RenderMode::VsyncOn,
            window_rect: [0u32; 4],
        };
        assert(r.reserved@ =~= seq![0u8, 0u8]);
        assert(r.window_rect@ =~= seq![0u32, 0u32, 0u32, 0u32]);
        r
    }
}

impl StartupIni {
    /// The opening mode.
    pub closed spec fn spec_opening_mode(&self) -> OpeningMode {
        self.opening_mode
    }

    /// The VGA mode.
    pub closed spec fn spec_vga_mode(&self) -> VgaMode {
        self.vga_mode
    }

    /// The reserved bytes.
    pub closed spec fn spec_reserved(&self) -> Seq<u8> {
        self.reserved@
    }

    /// The render mode.
    pub closed spec fn spec_render_mode(&self) -> RenderMode {
        self.render_mode
    }

    /// The window rectangle (left, top, right, bottom).
    pub closed spec fn spec_window_rect(&self) -> Seq<u32> {
        self.window_rect@
    }

    /// The serialized form of these settings.
    pub open spec fn spec_bytes(&self) -> Seq<u8> {
        ini_bytes(
            self.spec_opening_mode(),
            self.spec_vga_mode(),
            self.spec_reserved(),
            self.spec_render_mode(),
            self.spec_window_rect(),
        )
    }

    /// Whether these settings are the ones stored in `s`.
    pub open spec fn decodes(&self, s: Seq<u8>) -> bool {
        &&& opening_mode_value(self.spec_opening_mode()) == s[0]
        &&& vga_mode_value(self.spec_vga_mode()) == s[1]
        &&& self.spec_reserved() == s.subrange(2, 4)
        &&& render_mode_value(self.spec_render_mode()) == u32_at(s, 4)
        &&& self.spec_window_rect() == seq![
            u32_at(s, 8),
            u32_at(s, 12),
            u32_at(s, 16),
            u32_at(s, 20),
        ]
    }

    /// Parses settings from the first 24 bytes of `data`.
    pub fn from_bytes(data: &[u8]) -> (r: Result<Self, StartupIniError>)
        ensures
            data@.len() < 24 ==> r == Err::<Self, StartupIniError>(
                StartupIniError::InsufficientData { expected: 24, actual: data@.len() as usize },
            ),
            data@.len() >= 24 && data@[0] > 2 ==> r == Err::<Self, StartupIniError>(
                StartupIniError::InvalidOpeningMode(data@[0]),
            ),
            data@.len() >= 24 && data@[0] <= 2 && data@[1] > 1 ==> r == Err::<
                Self,
                StartupIniError,
            >(StartupIniError::InvalidVgaMode(data@[1])),
            data@.len() >= 24 && data@[0] <= 2 && data@[1] <= 1 && u32_at(data@, 4) > 1 ==> r
                == Err::<Self, StartupIniError>(
                StartupIniError::InvalidRenderMode(u32_at(data@, 4)),
            ),
            data@.len() >= 24 && data@[0] <= 2 && data@[1] <= 1 && u32_at(data@, 4) <= 1 ==> (
            r matches Ok(ini) && ini.decodes(data@)),
    {
        if data.len() < STARTUP_INI_SIZE {
            return Err(
                StartupIniError::InsufficientData { expected: STARTUP_INI_SIZE, actual: data.len() },
            );
        }
        let opening_mode = OpeningMode::from_u8(data[0])?;
        let vga_mode = VgaMode::from_u8(data[1])?;
        let reserved: [u8; 2] = [data[2], data[3]];
        let render_mode = RenderMode::from_u32(read_u32(data, 4))?;
        let window_rect: [u32; 4] = [
            read_u32(data, 8),
            read_u32(data, 12),
            read_u32(data, 16),
            read_u32(data, 20),
        ];
        let r = StartupIni { opening_mode, vga_mode, reserved, render_mode, window_rect };
        assert(r.reserved@ =~= data@.subrange(2, 4));
        assert(r.window_rect@ =~= seq![
            u32_at(data@, 8),
            u32_at(data@, 12),
            u32_at(data@, 16),
            u32_at(data@, 20),
        ]);
        Ok(r)
    }

    /// Serializes the settings into 24 bytes.
    pub fn to_bytes(&self) -> (r: [u8; 24])
        ensures
            r@ == self.spec_bytes(),
    {
        let mut v: Vec<u8> = Vec::new();
        v.push(self.opening_mode.to_u8());
        v.push(self.vga_mode.to_u8());
        v.push(self.reserved[0]);
        v.push(self.reserved[1]);
        push_u32(&mut v, self.render_mode.to_u32());
        push_u32(&mut v, self.window_rect[0]);
        push_u32(&mut v, self.window_rect[1]);
        push_u32(&mut v, self.window_rect[2]);
        push_u32(&mut v, self.window_rect[3]);
        assert(v@ =~= self.spec_bytes());
        let r: [u8; 24] = [
            v[0],
            v[1],
            v[2],
            v[3],
            v[4],
            v[5],
            v[6],
            v[7],
            v[8],
            v[9],
            v[10],
            v[11],
            v[12],
            v[13],
            v[14],
            v[15],
            v[16],
            v[17],
            v[18],
            v[19],
            v[20],
            v[21],
            v[22],
            v[23],
        ];
        assert(r@ =~= v@);
        r
    }

    /// Size of the settings file in bytes.
    pub fn size() -> (r: usize)
        ensures
            r == 24,
    {
        STARTUP_INI_SIZE
    }

    /// The game opening mode.
    pub fn opening_mode(&self) -> (r: OpeningMode)
        ensures
            r == self.spec_opening_mode(),
    {
        self.opening_mode
    }

    /// Sets the game opening mode.
    pub fn set_opening_mode(&mut self, mode: OpeningMode)
        ensures
            final(self).spec_opening_mode() == mode,
            final(self).spec_vga_mode() == old(self).spec_vga_mode(),
            final(self).spec_reserved() == old(self).spec_reserved(),
            final(self).spec_render_mode() == old(self).spec_render_mode(),
            final(self).spec_window_rect() == old(self).spec_window_rect(),
    {
        self.opening_mode = mode;
    }

    /// The VGA mode.
    pub fn vga_mode(&self) -> (r: VgaMode)
        ensures
            r == self.spec_vga_mode(),
    {
        self.vga_mode
    }

    /// Sets the VGA mode.
    pub fn set_vga_mode(&mut self, mode: VgaMode)
        ensures
            final(self).spec_vga_mode() == mode,
            final(self).spec_opening_mode() == old(self).spec_opening_mode(),
            final(self).spec_reserved() == old(self).spec_reserved(),
            final(self).spec_render_mode() == old(self).spec_render_mode(),
            final(self).spec_window_rect() == old(self).spec_window_rect(),
    {
        self.vga_mode = mode;
    }

    /// The render mode.
    pub fn render_mode(&self) -> (r: RenderMode)
        ensures
            r == self.spec_render_mode(),
    {
        self.render_mode
    }

    /// Sets the render mode.
    pub fn set_render_mode(&mut self, mode: RenderMode)
        ensures
            final(self).spec_render_mode() == mode,
            final(self).spec_opening_mode() == old(self).spec_opening_mode(),
            final(self).spec_vga_mode() == old(self).spec_vga_mode(),
            final(self).spec_reserved() == old(self).spec_reserved(),
            final(self).spec_window_rect() == old(self).spec_window_rect(),
    {
        self.render_mode = mode;
    }

    /// The window rectangle (left, top, right, bottom).
    pub fn window_rect(&self) -> (r: [u32; 4])
        ensures
            r@ == self.spec_window_rect(),
    {
        self.window_rect
    }

    /// Sets the window rectangle (left, top, right, bottom).
    pub fn set_window_rect(&mut self, rect: [u32; 4])
        ensures
            final(self).spec_window_rect() == rect@,
            final(self).spec_opening_mode() == old(self).spec_opening_mode(),
            final(self).spec_vga_mode() == old(self).spec_vga_mode(),
            final(self).spec_reserved() == old(self).spec_reserved(),
            final(self).spec_render_mode() == old(self).spec_render_mode(),
    {
        self.window_rect = rect;
    }

    /// The reserved bytes.
    pub fn reserved(&self) -> (r: &[u8; 2])
        ensures
            r@ == self.spec_reserved(),
    {
        &self.reserved
    }

    /// A description of the settings, one per line.
    pub fn to_string(&self) -> (r: String)
        ensures
            r@ == ini_text(
                self.spec_opening_mode(),
                self.spec_vga_mode(),
                self.spec_render_mode(),
                self.spec_window_rect(),
            ),
    {
        let mut s = String::from_str("Startup INI:\n  Opening Mode: ");
        s.append(self.opening_mode.to_string().as_str());
        s.append("\n  VGA Mode: ");
        s.append(self.vga_mode.to_string().as_str());
        s.append("\n  Render Mode: ");
        s.append(self.render_mode.to_string().as_str());
        s.append("\n  Window Rect: [");
        append_decimal(&mut s, self.window_rect[0] as u64);
        s.append(", ");
        append_decimal(&mut s, self.window_rect[1] as u64);
        s.append(", ");
        append_decimal(&mut s, self.window_rect[2] as u64);
        s.append(", ");
        append_decimal(&mut s, self.window_rect[3] as u64);
        s.append("]\n");
        s
    }
}

/// Serialized settings are read back as the same settings.
pub proof fn lemma_startup_ini_roundtrip(ini: StartupIni)
    ensures
        ini.spec_bytes().len() == 24,
        ini.spec_bytes()[0] <= 2,
        ini.spec_bytes()[1] <= 1,
        u32_at(ini.spec_bytes(), 4) <= 1,
        ini.decodes(ini.spec_bytes()),
{
    let s = ini.spec_bytes();
    let rect = ini.spec_window_rect();
    assert(rect.len() == 4) by {
        reveal(StartupIni::spec_window_rect);
    }
    assert(ini.spec_reserved().len() == 2) by {
        reveal(StartupIni::spec_reserved);
    }
    assert(s.subrange(4, 8) =~= u32_bytes(render_mode_value(ini.spec_render_mode())));
    assert(s.subrange(8, 12) =~= u32_bytes(rect[0]));
    assert(s.subrange(12, 16) =~= u32_bytes(rect[1]));
    assert(s.subrange(16, 20) =~= u32_bytes(rect[2]));
    assert(s.subrange(20, 24) =~= u32_bytes(rect[3]));
    lemma_u32_roundtrip(render_mode_value(ini.spec_render_mode()), s, 4);
    lemma_u32_roundtrip(rect[0], s, 8);
    lemma_u32_roundtrip(rect[1], s, 12);
    lemma_u32_roundtrip(rect[2], s, 16);
    lemma_u32_roundtrip(rect[3], s, 20);
    assert(s.subrange(2, 4) =~= ini.spec_reserved());
    assert(rect =~= seq![u32_at(s, 8), u32_at(s, 12), u32_at(s, 16), u32_at(s, 20)]);
}

} // verus!

//! Settings schema: the enumerated settings, their on-disk string encodings,
//! and the composite settings structs assembled from several primitive
//! registry values.

use vstd::prelude::*;

use crate::strutil;
use crate::strutil::str_eq;

verus! {

/// Windows version reported to applications.
#[derive(Debug, Clone, Copy, PartialEq, Eq, Structural)]
pub enum WindowsVersion {
    Win10,
    Win81,
    Win8,
    Win7,
    Win2008,
    Vista,
    Win2003,
    WinXP,
    Win2K,
    NT40,
    WinME,
    Win98,
    Win95,
    Win31,
}

impl WindowsVersion {
    /// The registry string for this version.
    pub open spec fn to_str_spec(self) -> Seq<char> {
        match self {
            WindowsVersion::Win10 => "win10"@,
            WindowsVersion::Win81 => "win81"@,
            WindowsVersion::Win8 => "win8"@,
            WindowsVersion::Win7 => "win7"@,
            WindowsVersion::Win2008 => "win2008"@,
            WindowsVersion::Vista => "vista"@,
            WindowsVersion::Win2003 => "win2003"@,
            WindowsVersion::WinXP => "winxp"@,
            WindowsVersion::Win2K => "win2k"@,
            WindowsVersion::NT40 => "nt40"@,
            WindowsVersion::WinME => "winme"@,
            WindowsVersion::Win98 => "win98"@,
            WindowsVersion::Win95 => "win95"@,
            WindowsVersion::Win31 => "win31"@,
        }
    }

    /// The version a registry string decodes to, if recognized.
    pub open spec fn from_str_spec(s: Seq<char>) -> Option<WindowsVersion> {
        if s == "win10"@ {
            Some(WindowsVersion::Win10)
        } else if s == "win81"@ {
            Some(WindowsVersion::Win81)
        } else if s == "win8"@ {
            Some(WindowsVersion::Win8)
        } else if s == "win7"@ {
            Some(WindowsVersion::Win7)
        } else if s == "win2008"@ {
            Some(WindowsVersion::Win2008)
        } else if s == "vista"@ {
            Some(WindowsVersion::Vista)
        } else if s == "win2003"@ {
            Some(WindowsVersion::Win2003)
        } else if s == "winxp"@ {
            Some(WindowsVersion::WinXP)
        } else if s == "win2k"@ {
            Some(WindowsVersion::Win2K)
        } else if s == "nt40"@ {
            Some(WindowsVersion::NT40)
        } else if s == "winme"@ {
            Some(WindowsVersion::WinME)
        } else if s == "win98"@ {
            Some(WindowsVersion::Win98)
        } else if s == "win95"@ {
            Some(WindowsVersion::Win95)
        } else if s == "win31"@ {
            Some(WindowsVersion::Win31)
        } else {
            None
        }
    }

    /// String representation used in the registry.
    pub fn to_string(&self) -> (r: &'static str)
        ensures
            r@ == self.to_str_spec(),
    {
        match self {
            WindowsVersion::Win10 => "win10",
            WindowsVersion::Win81 => "win81",
            WindowsVersion::Win8 => "win8",
            WindowsVersion::Win7 => "win7",
            WindowsVersion::Win2008 => "win2008",
            WindowsVersion::Vista => "vista",
            WindowsVersion::Win2003 => "win2003",
            WindowsVersion::WinXP => "winxp",
            WindowsVersion::Win2K => "win2k",
            WindowsVersion::NT40 => "nt40",
            WindowsVersion::WinME => "winme",
            WindowsVersion::Win98 => "win98",
            WindowsVersion::Win95 => "win95",
            WindowsVersion::Win31 => "win31",
        }
    }

    /// Decodes a registry string; unknown strings give `None`.
    pub fn from_string(s: &str) -> (r: Option<WindowsVersion>)
        ensures
            r == WindowsVersion::from_str_spec(s@),
    {
        if str_eq(s, "win10") {
            Some(WindowsVersion::Win10)
        } else if str_eq(s, "win81") {
            Some(WindowsVersion::Win81)
        } else if str_eq(s, "win8") {
            Some(WindowsVersion::Win8)
        } else if str_eq(s, "win7") {
            Some(WindowsVersion::Win7)
        } else if str_eq(s, "win2008") {
            Some(WindowsVersion::Win2008)
        } else if str_eq(s, "vista") {
            Some(WindowsVersion::Vista)
        } else if str_eq(s, "win2003") {
            Some(WindowsVersion::Win2003)
        } else if str_eq(s, "winxp") {
            Some(WindowsVersion::WinXP)
        } else if str_eq(s, "win2k") {
            Some(WindowsVersion::Win2K)
        } else if str_eq(s, "nt40") {
            Some(WindowsVersion::NT40)
        } else if str_eq(s, "winme") {
            Some(WindowsVersion::WinME)
        } else if str_eq(s, "win98") {
            Some(WindowsVersion::Win98)
        } else if str_eq(s, "win95") {
            Some(WindowsVersion::Win95)
        } else if str_eq(s, "win31") {
            Some(WindowsVersion::Win31)
        } else {
            None
        }
    }
}

/// Rendering backend used by the Direct3D implementation.
#[derive(Debug, Clone, Copy, PartialEq, Eq, Structural)]
pub enum D3DRenderer {
    GDI,
    OpenGL,
    Vulkan,
}

impl D3DRenderer {
    /// The registry string for this renderer.
    pub open spec fn to_str_spec(self) -> Seq<char> {
        match self {
            D3DRenderer::GDI => "gdi"@,
            D3DRenderer::OpenGL => "gl"@,
            D3DRenderer::Vulkan => "vulkan"@,
        }
    }

    /// The renderer a registry string decodes to, if recognized; the legacy
    /// spelling `no3d` decodes to the GDI renderer.
    pub open spec fn from_str_spec(s: Seq<char>) -> Option<D3DRenderer> {
        if s == "gdi"@ || s == "no3d"@ {
            Some(D3DRenderer::GDI)
        } else if s == "gl"@ {
            Some(D3DRenderer::OpenGL)
        } else if s == "vulkan"@ {
            Some(D3DRenderer::Vulkan)
        } else {
            None
        }
    }

    /// String representation used in the registry.
    pub fn to_string(&self) -> (r: &'static str)
        ensures
            r@ == self.to_str_spec(),
    {
        match self {
            D3DRenderer::GDI => "gdi",
            D3DRenderer::OpenGL => "gl",
            D3DRenderer::Vulkan => "vulkan",
        }
    }

    /// Decodes a registry string; unknown strings give `None`.
    pub fn from_string(s: &str) -> (r: Option<D3DRenderer>)
        ensures
            r == D3DRenderer::from_str_spec(s@),
    {
        if str_eq(s, "gdi") || str_eq(s, "no3d") {
            Some(D3DRenderer::GDI)
        } else if str_eq(s, "gl") {
            Some(D3DRenderer::OpenGL)
        } else if str_eq(s, "vulkan") {
            Some(D3DRenderer::Vulkan)
        } else {
            None
        }
    }
}

/// Offscreen rendering strategy of the Direct3D implementation.
#[derive(Debug, Clone, Copy, PartialEq, Eq, Structural)]
pub enum OffscreenRenderingMode {
    Backbuffer,
    FBO,
}

impl OffscreenRenderingMode {
    /// The registry string for this mode.
    pub open spec fn to_str_spec(self) -> Seq<char> {
        match self {
            OffscreenRenderingMode::Backbuffer => "backbuffer"@,
            OffscreenRenderingMode::FBO => "fbo"@,
        }
    }

    /// The mode a registry string decodes to, if recognized.
    pub open spec fn from_str_spec(s: Seq<char>) -> Option<OffscreenRenderingMode> {
        if s == "backbuffer"@ {
            Some(OffscreenRenderingMode::Backbuffer)
        } else if s == "fbo"@ {
            Some(OffscreenRenderingMode::FBO)
        } else {
            None
        }
    }

    /// String representation used in the registry.
    pub fn to_string(&self) -> (r: &'static str)
        ensures
            r@ == self.to_str_spec(),
    {
        match self {
            OffscreenRenderingMode::Backbuffer => "backbuffer",
            OffscreenRenderingMode::FBO => "fbo",
        }
    }

    /// Decodes a registry string; unknown strings give `None`.
    pub fn from_string(s: &str) -> (r: Option<OffscreenRenderingMode>)
        ensures
            r == OffscreenRenderingMode::from_str_spec(s@),
    {
        if str_eq(s, "backbuffer") {
            Some(OffscreenRenderingMode::Backbuffer)
        } else if str_eq(s, "fbo") {
            Some(OffscreenRenderingMode::FBO)
        } else {
            None
        }
    }
}

/// Mouse pointer warping behaviour of the DirectInput implementation.
#[derive(Debug, Clone, Copy, PartialEq, Eq, Structural)]
pub enum MouseWarpOverride {
    Enable,
    Disable,
    Force,
}

impl MouseWarpOverride {
    /// The registry string for this mode.
    pub open spec fn to_str_spec(self) -> Seq<char> {
        match self {
            MouseWarpOverride::Enable => "enable"@,
            MouseWarpOverride::Disable => "disable"@,
            MouseWarpOverride::Force => "force"@,
        }
    }

    /// The mode a registry string decodes to, if recognized.
    pub open spec fn from_str_spec(s: Seq<char>) -> Option<MouseWarpOverride> {
        if s == "enable"@ {
            Some(MouseWarpOverride::Enable)
        } else if s == "disable"@ {
            Some(MouseWarpOverride::Disable)
        } else if s == "force"@ {
            Some(MouseWarpOverride::Force)
        } else {
            None
        }
    }

    /// String representation used in the registry.
    pub fn to_string(&self) -> (r: &'static str)
        ensures
            r@ == self.to_str_spec(),
    {
        match self {
            MouseWarpOverride::Enable => "enable",
            MouseWarpOverride::Disable => "disable",
            MouseWarpOverride::Force => "force",
        }
    }

    /// Decodes a registry string; unknown strings give `None`.
    pub fn from_string(s: &str) -> (r: Option<MouseWarpOverride>)
        ensures
            r == MouseWarpOverride::from_str_spec(s@),
    {
        if str_eq(s, "enable") {
            Some(MouseWarpOverride::Enable)
        } else if str_eq(s, "disable") {
            Some(MouseWarpOverride::Disable)
        } else if str_eq(s, "force") {
            Some(MouseWarpOverride::Force)
        } else {
            None
        }
    }
}

/// How a DLL is resolved: the native copy, the built-in one, both in an
/// order, or not at all.
#[derive(Debug, Clone, Copy, PartialEq, Eq, Structural)]
pub enum DllOverrideSetting {
    Native,
    Builtin,
    NativeBuiltin,
    BuiltinNative,
    Disabled,
}

impl DllOverrideSetting {
    /// The registry string for this setting.
    pub open spec fn to_str_spec(self) -> Seq<char> {
        match self {
            DllOverrideSetting::Native => "native"@,
            DllOverrideSetting::Builtin => "builtin"@,
            DllOverrideSetting::NativeBuiltin => "native,builtin"@,
            DllOverrideSetting::BuiltinNative => "builtin,native"@,
            DllOverrideSetting::Disabled => ""@,
        }
    }

    /// The setting a registry string decodes to, if recognized.
    pub open spec fn from_str_spec(s: Seq<char>) -> Option<DllOverrideSetting> {
        if s == "native"@ {
            Some(DllOverrideSetting::Native)
        } else if s == "builtin"@ {
            Some(DllOverrideSetting::Builtin)
        } else if s == "native,builtin"@ {
            Some(DllOverrideSetting::NativeBuiltin)
        } else if s == "builtin,native"@ {
            Some(DllOverrideSetting::BuiltinNative)
        } else if s == ""@ {
            Some(DllOverrideSetting::Disabled)
        } else {
            None
        }
    }

    /// String representation used in the registry.
    pub fn to_string(&self) -> (r: &'static str)
        ensures
            r@ == self.to_str_spec(),
    {
        match self {
            DllOverrideSetting::Native => "native",
            DllOverrideSetting::Builtin => "builtin",
            DllOverrideSetting::NativeBuiltin => "native,builtin",
            DllOverrideSetting::BuiltinNative => "builtin,native",
            DllOverrideSetting::Disabled => "",
        }
    }

    /// Decodes a registry string; unknown strings give `None`.
    pub fn from_string(s: &str) -> (r: Option<DllOverrideSetting>)
        ensures
            r == DllOverrideSetting::from_str_spec(s@),
    {
        if str_eq(s, "native") {
            Some(DllOverrideSetting::Native)
        } else if str_eq(s, "builtin") {
            Some(DllOverrideSetting::Builtin)
        } else if str_eq(s, "native,builtin") {
            Some(DllOverrideSetting::NativeBuiltin)
        } else if str_eq(s, "builtin,native") {
            Some(DllOverrideSetting::BuiltinNative)
        } else if str_eq(s, "") {
            Some(DllOverrideSetting::Disabled)
        } else {
            None
        }
    }
}

/// Audio backend.
#[derive(Debug, Clone, Copy, PartialEq, Eq, Structural)]
pub enum AudioDriver {
    Pulse,
    ALSA,
    OSS,
    CoreAudio,
    Disabled,
}

impl AudioDriver {
    /// The registry string for this driver.
    pub open spec fn to_str_spec(self) -> Seq<char> {
        match self {
            AudioDriver::Pulse => "pulse"@,
            AudioDriver::ALSA => "alsa"@,
            AudioDriver::OSS => "oss"@,
            AudioDriver::CoreAudio => "coreaudio"@,
            AudioDriver::Disabled => ""@,
        }
    }

    /// The driver a registry string decodes to, if recognized.
    pub open spec fn from_str_spec(s: Seq<char>) -> Option<AudioDriver> {
        if s == "pulse"@ {
            Some(AudioDriver::Pulse)
        } else if s == "alsa"@ {
            Some(AudioDriver::ALSA)
        } else if s == "oss"@ {
            Some(AudioDriver::OSS)
        } else if s == "coreaudio"@ {
            Some(AudioDriver::CoreAudio)
        } else if s == ""@ {
            Some(AudioDriver::Disabled)
        } else {
            None
        }
    }

    /// String representation used in the registry.
    pub fn to_string(&self) -> (r: &'static str)
        ensures
            r@ == self.to_str_spec(),
    {
        match self {
            AudioDriver::Pulse => "pulse",
            AudioDriver::ALSA => "alsa",
            AudioDriver::OSS => "oss",
            AudioDriver::CoreAudio => "coreaudio",
            AudioDriver::Disabled => "",
        }
    }

    /// Decodes a registry string; unknown strings give `None`.
    pub fn from_string(s: &str) -> (r: Option<AudioDriver>)
        ensures
            r == AudioDriver::from_str_spec(s@),
    {
        if str_eq(s, "pulse") {
            Some(AudioDriver::Pulse)
        } else if str_eq(s, "alsa") {
            Some(AudioDriver::ALSA)
        } else if str_eq(s, "oss") {
            Some(AudioDriver::OSS)
        } else if str_eq(s, "coreaudio") {
            Some(AudioDriver::CoreAudio)
        } else if str_eq(s, "") {
            Some(AudioDriver::Disabled)
        } else {
            None
        }
    }
}

/// Graphics backend.
#[derive(Debug, Clone, Copy, PartialEq, Eq, Structural)]
pub enum GraphicsDriver {
    X11,
    Mac,
    Null,
}

impl GraphicsDriver {
    /// The registry string for this driver.
    pub open spec fn to_str_spec(self) -> Seq<char> {
        match self {
            GraphicsDriver::X11 => "x11"@,
            GraphicsDriver::Mac => "mac"@,
            GraphicsDriver::Null => "null"@,
        }
    }

    /// The driver a registry string decodes to, if recognized.
    pub open spec fn from_str_spec(s: Seq<char>) -> Option<GraphicsDriver> {
        if s == "x11"@ {
            Some(GraphicsDriver::X11)
        } else if s == "mac"@ {
            Some(GraphicsDriver::Mac)
        } else if s == "null"@ {
            Some(GraphicsDriver::Null)
        } else {
            None
        }
    }

    /// String representation used in the registry.
    pub fn to_string(&self) -> (r: &'static str)
        ensures
            r@ == self.to_str_spec(),
    {
        match self {
            GraphicsDriver::X11 => "x11",
            GraphicsDriver::Mac => "mac",
            GraphicsDriver::Null => "null",
        }
    }

    /// Decodes a registry string; unknown strings give `None`.
    pub fn from_string(s: &str) -> (r: Option<GraphicsDriver>)
        ensures
            r == GraphicsDriver::from_str_spec(s@),
    {
        if str_eq(s, "x11") {
            Some(GraphicsDriver::X11)
        } else if str_eq(s, "mac") {
            Some(GraphicsDriver::Mac)
        } else if str_eq(s, "null") {
            Some(GraphicsDriver::Null)
        } else {
            None
        }
    }
}

/// Which windows stay above other applications when the emulated session is
/// inactive (macOS driver).
#[derive(Debug, Clone, Copy, PartialEq, Eq, Structural)]
pub enum WindowsFloatWhenInactive {
    Disabled,
    All,
    NonFullscreen,
}

impl WindowsFloatWhenInactive {
    /// The registry string for this mode.
    pub open spec fn to_str_spec(self) -> Seq<char> {
        match self {
            WindowsFloatWhenInactive::Disabled => "none"@,
            WindowsFloatWhenInactive::All => "all"@,
            WindowsFloatWhenInactive::NonFullscreen => "nonfullscreen"@,
        }
    }

    /// The mode a registry string decodes to, if recognized.
    pub open spec fn from_str_spec(s: Seq<char>) -> Option<WindowsFloatWhenInactive> {
        if s == "none"@ {
            Some(WindowsFloatWhenInactive::Disabled)
        } else if s == "all"@ {
            Some(WindowsFloatWhenInactive::All)
        } else if s == "nonfullscreen"@ {
            Some(WindowsFloatWhenInactive::NonFullscreen)
        } else {
            None
        }
    }

    /// String representation used in the registry.
    pub fn to_string(&self) -> (r: &'static str)
        ensures
            r@ == self.to_str_spec(),
    {
        match self {
            WindowsFloatWhenInactive::Disabled => "none",
            WindowsFloatWhenInactive::All => "all",
            WindowsFloatWhenInactive::NonFullscreen => "nonfullscreen",
        }
    }

    /// Decodes a registry string; unknown strings give `None`.
    pub fn from_string(s: &str) -> (r: Option<WindowsFloatWhenInactive>)
        ensures
            r == WindowsFloatWhenInactive::from_str_spec(s@),
    {
        if str_eq(s, "none") {
            Some(WindowsFloatWhenInactive::Disabled)
        } else if str_eq(s, "all") {
            Some(WindowsFloatWhenInactive::All)
        } else if str_eq(s, "nonfullscreen") {
            Some(WindowsFloatWhenInactive::NonFullscreen)
        } else {
            None
        }
    }
}

/// A desktop resolution.
#[derive(Debug, Clone, Copy, PartialEq, Eq, Structural)]
pub struct DesktopSize {
    pub width: u32,
    pub height: u32,
}

/// Holds at the position of the only `'x'` in `s`.
pub open spec fn single_x_at(s: Seq<char>, i: int) -> bool {
    &&& 0 <= i < s.len()
    &&& s[i] == 'x'
    &&& forall|j: int| 0 <= j < s.len() && j != i ==> s[j] != 'x'
}

impl DesktopSize {
    /// The registry string for this size: width and height in decimal,
    /// joined by `'x'`.
    pub open spec fn to_str_spec(self) -> Seq<char> {
        strutil::dec_of(self.width as int) + seq!['x'] + strutil::dec_of(self.height as int)
    }

    /// The size a registry string decodes to: defined exactly when the
    /// string holds a single `'x'` between two decimal numbers in range.
    pub open spec fn from_str_spec(s: Seq<char>) -> Option<DesktopSize> {
        if exists|i: int| single_x_at(s, i) {
            let i = choose|i: int| single_x_at(s, i);
            match (
                strutil::parse_u32_spec(s.subrange(0, i)),
                strutil::parse_u32_spec(s.subrange(i + 1, s.len() as int)),
            ) {
                (Some(w), Some(h)) => Some(DesktopSize { width: w, height: h }),
                _ => None,
            }
        } else {
            None
        }
    }

    pub fn new(width: u32, height: u32) -> (r: Self)
        ensures
            r == (DesktopSize { width, height }),
    {
        DesktopSize { width, height }
    }

    /// String representation used in the registry.
    pub fn to_string(&self) -> (r: String)
        ensures
            r@ == self.to_str_spec(),
    {
        let mut out: Vec<char> = Vec::new();
        strutil::push_dec_u32(self.width, &mut out);
        out.push('x');
        strutil::push_dec_u32(self.height, &mut out);
        proof {
            assert(out@ =~= self.to_str_spec());
        }
        strutil::chars_to_string(&out)
    }

    /// Decodes a registry string; anything but `<decimal>x<decimal>` gives
    /// `None`.
    pub fn from_string(s: &str) -> (r: Option<DesktopSize>)
        ensures
            r == DesktopSize::from_str_spec(s@),
    {
        let chars = strutil::str_to_chars(s);
        let n = chars.len();
        // Find the unique 'x', if there is one.
        let mut i: usize = 0;
        let mut fx: Option<usize> = None;
        while i < n
            invariant
                i <= n,
                n == chars@.len(),
                chars@ == s@,
                match fx {
                    Some(f) => f < i && s@[f as int] == 'x' && (forall|j: int|
                        0 <= j < i && j != f ==> s@[j] != 'x'),
                    None => forall|j: int| 0 <= j < i ==> s@[j] != 'x',
                },
            decreases n - i,
        {
            if chars[i] == 'x' {
                match fx {
                    Some(_) => {
                        proof {
                            assert forall|t: int| !single_x_at(s@, t) by {
                                if single_x_at(s@, t) {
                                    let f = fx->Some_0;
                                    assert(s@[f as int] == 'x');
                                    assert(s@[i as int] == 'x');
                                }
                            }
                        }
                        return None;
                    },
                    None => {
                        fx = Some(i);
                    },
                }
            }
            i = i + 1;
        }
        match fx {
            Some(f) => {
                proof {
                    assert(single_x_at(s@, f as int));
                    let c = choose|i: int| single_x_at(s@, i);
                    assert(c == f as int) by {
                        if c != f as int {
                            assert(s@[c] != 'x');
                        }
                    }
                }
                let mut left: Vec<char> = Vec::new();
                let mut j: usize = 0;
                while j < f
                    invariant
                        j <= f < n == chars@.len(),
                        chars@ == s@,
                        left@ == s@.subrange(0, j as int),
                    decreases f - j,
                {
                    left.push(chars[j]);
                    j = j + 1;
                    proof {
                        assert(left@ =~= s@.subrange(0, j as int));
                    }
                }
                let mut right: Vec<char> = Vec::new();
                let mut k: usize = f + 1;
                while k < n
                    invariant
                        f < k <= n,
                        n == chars@.len(),
                        chars@ == s@,
                        right@ == s@.subrange(f + 1, k as int),
                    decreases n - k,
                {
                    right.push(chars[k]);
                    k = k + 1;
                    proof {
                        assert(right@ =~= s@.subrange(f + 1, k as int));
                    }
                }
                let w = strutil::parse_u32_chars(&left);
                let h = strutil::parse_u32_chars(&right);
                match (w, h) {
                    (Some(w), Some(h)) => Some(DesktopSize { width: w, height: h }),
                    _ => None,
                }
            },
            None => {
                proof {
                    assert forall|t: int| !single_x_at(s@, t) by {}
                }
                None
            },
        }
    }
}

/// A named desktop and its resolution, as stored under the desktops key.
#[derive(Debug, Clone, PartialEq, Eq)]
pub struct DesktopEntry {
    pub name: String,
    pub size: DesktopSize,
}

/// Mathematical view of a [`DesktopEntry`].
#[verifier::ext_equal]
pub struct DesktopEntryV {
    pub name: Seq<char>,
    pub size: DesktopSize,
}

impl View for DesktopEntry {
    type V = DesktopEntryV;

    open spec fn view(&self) -> DesktopEntryV {
        DesktopEntryV { name: self.name@, size: self.size }
    }
}

impl DeepView for DesktopEntry {
    type V = DesktopEntryV;

    open spec fn deep_view(&self) -> DesktopEntryV {
        self@
    }
}

/// Desktop (virtual screen) settings of the window manager integration.
#[derive(Debug, Clone, PartialEq, Eq)]
pub struct DesktopSettings {
    /// Name of the active desktop, if one is configured.
    pub desktop: Option<String>,
    /// The configured desktops and their resolutions.
    pub desktops: Vec<DesktopEntry>,
    /// Whether the system tray is shown.
    pub show_systray: bool,
}

/// Mathematical view of [`DesktopSettings`].
#[verifier::ext_equal]
pub struct DesktopSettingsV {
    pub desktop: Option<Seq<char>>,
    pub desktops: Seq<DesktopEntryV>,
    pub show_systray: bool,
}

impl View for DesktopSettings {
    type V = DesktopSettingsV;

    open spec fn view(&self) -> DesktopSettingsV {
        DesktopSettingsV {
            desktop: match self.desktop {
                Some(ref d) => Some(d@),
                None => None,
            },
            desktops: self.desktops.deep_view(),
            show_systray: self.show_systray,
        }
    }
}

/// A font substitution: requests for `original` are served with
/// `replacement`.
#[derive(Debug, Clone, PartialEq, Eq)]
pub struct FontReplacement {
    pub original: String,
    pub replacement: String,
}

/// Mathematical view of a [`FontReplacement`].
#[verifier::ext_equal]
pub struct FontReplacementV {
    pub original: Seq<char>,
    pub replacement: Seq<char>,
}

impl View for FontReplacement {
    type V = FontReplacementV;

    open spec fn view(&self) -> FontReplacementV {
        FontReplacementV { original: self.original@, replacement: self.replacement@ }
    }
}

impl DeepView for FontReplacement {
    type V = FontReplacementV;

    open spec fn deep_view(&self) -> FontReplacementV {
        self@
    }
}

impl FontReplacement {
    pub fn new(original: String, replacement: String) -> (r: Self)
        ensures
            r@ == (FontReplacementV { original: original@, replacement: replacement@ }),
    {
        FontReplacement { original, replacement }
    }
}

/// A DLL override: which copy of `dll` is loaded.
#[derive(Debug, Clone, PartialEq, Eq)]
pub struct DllOverride {
    pub dll: String,
    pub setting: DllOverrideSetting,
}

/// Mathematical view of a [`DllOverride`].
#[verifier::ext_equal]
pub struct DllOverrideV {
    pub dll: Seq<char>,
    pub setting: DllOverrideSetting,
}

impl View for DllOverride {
    type V = DllOverrideV;

    open spec fn view(&self) -> DllOverrideV {
        DllOverrideV { dll: self.dll@, setting: self.setting }
    }
}

impl DeepView for DllOverride {
    type V = DllOverrideV;

    open spec fn deep_view(&self) -> DllOverrideV {
        self@
    }
}

/// Per-shader-stage maximum shader model versions of the Direct3D
/// implementation.  Fields left `None` are not configured.
#[derive(Debug, Clone, Copy, PartialEq, Eq, Structural)]
pub struct ShaderModelSettings {
    pub max_shader_model_vs: Option<u32>,
    pub max_shader_model_ps: Option<u32>,
    pub max_shader_model_gs: Option<u32>,
    pub max_shader_model_hs: Option<u32>,
    pub max_shader_model_ds: Option<u32>,
    pub max_shader_model_cs: Option<u32>,
}

impl ShaderModelSettings {
    /// Settings with no stage configured.
    pub fn new() -> (r: Self)
        ensures
            r == (ShaderModelSettings {
                max_shader_model_vs: None,
                max_shader_model_ps: None,
                max_shader_model_gs: None,
                max_shader_model_hs: None,
                max_shader_model_ds: None,
                max_shader_model_cs: None,
            }),
    {
        ShaderModelSettings {
            max_shader_model_vs: None,
            max_shader_model_ps: None,
            max_shader_model_gs: None,
            max_shader_model_hs: None,
            max_shader_model_ds: None,
            max_shader_model_cs: None,
        }
    }
}

/// Virtual desktop settings: whether one is active and at what resolution.
#[derive(Debug, Clone, Copy, PartialEq, Eq, Structural)]
pub struct VirtualDesktopSettings {
    pub enabled: bool,
    pub width: u32,
    pub height: u32,
}

impl VirtualDesktopSettings {
    pub fn new(enabled: bool, width: u32, height: u32) -> (r: Self)
        ensures
            r == (VirtualDesktopSettings { enabled, width, height }),
    {
        VirtualDesktopSettings { enabled, width, height }
    }
}

/// X11 driver settings.  Every field is an uppercase `"Y"`/`"N"` string in
/// the registry; a field left `None` is not configured.
#[derive(Debug, Clone, Copy, PartialEq, Eq, Structural)]
pub struct X11DriverSettings {
    pub decorated: Option<bool>,
    pub client_side_graphics: Option<bool>,
    pub client_side_with_render: Option<bool>,
    pub client_side_antialias_with_render: Option<bool>,
    pub client_side_antialias_with_core: Option<bool>,
    pub grab_fullscreen: Option<bool>,
    pub grab_pointer: Option<bool>,
    pub managed: Option<bool>,
    pub use_xrandr: Option<bool>,
    pub use_xvid_mode: Option<bool>,
}

impl X11DriverSettings {
    /// Settings with no field configured.
    pub fn new() -> (r: Self)
        ensures
            r == (X11DriverSettings {
                decorated: None,
                client_side_graphics: None,
                client_side_with_render: None,
                client_side_antialias_with_render: None,
                client_side_antialias_with_core: None,
                grab_fullscreen: None,
                grab_pointer: None,
                managed: None,
                use_xrandr: None,
                use_xvid_mode: None,
            }),
    {
        X11DriverSettings {
            decorated: None,
            client_side_graphics: None,
            client_side_with_render: None,
            client_side_antialias_with_render: None,
            client_side_antialias_with_core: None,
            grab_fullscreen: None,
            grab_pointer: None,
            managed: None,
            use_xrandr: None,
            use_xvid_mode: None,
        }
    }
}

/// Display DPI settings.
#[derive(Debug, Clone, Copy, PartialEq, Eq, Structural)]
pub struct DpiSettings {
    pub log_pixels: Option<u32>,
}

impl DpiSettings {
    /// Settings with no DPI configured.
    pub fn new() -> (r: Self)
        ensures
            r == (DpiSettings { log_pixels: None }),
    {
        DpiSettings { log_pixels: None }
    }

    /// Settings with the given DPI.
    pub fn new_with_dpi(dpi: u32) -> (r: Self)
        ensures
            r == (DpiSettings { log_pixels: Some(dpi) }),
    {
        DpiSettings { log_pixels: Some(dpi) }
    }
}

/// macOS driver settings.  The boolean fields are lowercase `"y"`/`"n"`
/// strings in the registry, except retina mode which is written `"Y"` when
/// enabled and `"n"` when disabled; a field left `None` is not configured.
#[derive(Debug, Clone, Copy, PartialEq, Eq, Structural)]
pub struct MacDriverSettings {
    pub allow_vertical_sync: Option<bool>,
    pub capture_displays_for_fullscreen: Option<bool>,
    pub use_precise_scrolling: Option<bool>,
    pub retina_mode: Option<bool>,
    pub windows_float_when_inactive: Option<WindowsFloatWhenInactive>,
}

impl MacDriverSettings {
    /// Settings with no field configured.
    pub fn new() -> (r: Self)
        ensures
            r == (MacDriverSettings {
                allow_vertical_sync: None,
                capture_displays_for_fullscreen: None,
                use_precise_scrolling: None,
                retina_mode: None,
                windows_float_when_inactive: None,
            }),
    {
        MacDriverSettings {
            allow_vertical_sync: None,
            capture_displays_for_fullscreen: None,
            use_precise_scrolling: None,
            retina_mode: None,
            windows_float_when_inactive: None,
        }
    }
}

/// A custom string setting stored directly under an application key.
#[derive(Debug, Clone, PartialEq, Eq)]
pub struct CustomSetting {
    pub key: String,
    pub value: String,
}

/// Mathematical view of a [`CustomSetting`].
#[verifier::ext_equal]
pub struct CustomSettingV {
    pub key: Seq<char>,
    pub value: Seq<char>,
}

impl View for CustomSetting {
    type V = CustomSettingV;

    open spec fn view(&self) -> CustomSettingV {
        CustomSettingV { key: self.key@, value: self.value@ }
    }
}

impl DeepView for CustomSetting {
    type V = CustomSettingV;

    open spec fn deep_view(&self) -> CustomSettingV {
        self@
    }
}

/// Application-specific settings, stored under the per-application defaults
/// key of the given name.
#[derive(Debug, Clone, PartialEq, Eq)]
pub struct AppSettings {
    pub name: String,
    pub dll_overrides: Vec<DllOverride>,
    pub d3d_renderer: Option<D3DRenderer>,
    pub offscreen_rendering_mode: Option<OffscreenRenderingMode>,
    pub desktop_settings: Option<DesktopSettings>,
    pub custom_settings: Vec<CustomSetting>,
}

impl AppSettings {
    /// Empty settings for the application of the given name.
    pub fn new(name: String) -> (r: Self)
        ensures
            r.name@ == name@,
            r.dll_overrides@.len() == 0,
            r.d3d_renderer is None,
            r.offscreen_rendering_mode is None,
            r.desktop_settings is None,
            r.custom_settings@.len() == 0,
    {
        AppSettings {
            name,
            dll_overrides: Vec::new(),
            d3d_renderer: None,
            offscreen_rendering_mode: None,
            desktop_settings: None,
            custom_settings: Vec::new(),
        }
    }
}

/// One violation found by whole-registry validation.
#[derive(Debug, Clone, PartialEq, Eq)]
pub struct ValidationError {
    pub key_path: String,
    pub value_name: Option<String>,
    pub error_message: String,
}

/// Mathematical view of a [`ValidationError`].
#[verifier::ext_equal]
pub struct ValidationErrorV {
    pub key_path: Seq<char>,
    pub value_name: Option<Seq<char>>,
    pub error_message: Seq<char>,
}

impl View for ValidationError {
    type V = ValidationErrorV;

    open spec fn view(&self) -> ValidationErrorV {
        ValidationErrorV {
            key_path: self.key_path@,
            value_name: match self.value_name {
                Some(ref n) => Some(n@),
                None => None,
            },
            error_message: self.error_message@,
        }
    }
}

impl DeepView for ValidationError {
    type V = ValidationErrorV;

    open spec fn deep_view(&self) -> ValidationErrorV {
        self@
    }
}

impl ValidationError {
    pub fn new(key_path: String, value_name: Option<String>, error_message: String) -> (r: Self)
        ensures
            r.key_path@ == key_path@,
            r.value_name == value_name,
            r.error_message@ == error_message@,
    {
        ValidationError { key_path, value_name, error_message }
    }
}

/// Mathematical view of [`AppSettings`].
#[verifier::ext_equal]
pub struct AppSettingsV {
    pub name: Seq<char>,
    pub dll_overrides: Seq<DllOverrideV>,
    pub d3d_renderer: Option<D3DRenderer>,
    pub offscreen_rendering_mode: Option<OffscreenRenderingMode>,
    pub desktop_settings: Option<DesktopSettingsV>,
    pub custom_settings: Seq<CustomSettingV>,
}

impl View for AppSettings {
    type V = AppSettingsV;

    open spec fn view(&self) -> AppSettingsV {
        AppSettingsV {
            name: self.name@,
            dll_overrides: self.dll_overrides.deep_view(),
            d3d_renderer: self.d3d_renderer,
            offscreen_rendering_mode: self.offscreen_rendering_mode,
            desktop_settings: match self.desktop_settings {
                Some(ref d) => Some(d@),
                None => None,
            },
            custom_settings: self.custom_settings.deep_view(),
        }
    }
}

} // verus!

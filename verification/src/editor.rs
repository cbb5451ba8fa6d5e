//! Registry editor: the typed settings facade over one registry store.
//!
//! Every setter validates its inputs before touching the store and returns a
//! `Validation` error, without partial mutation, when they are rejected.

use vstd::prelude::*;
use vstd::string::StringExecFns;

use crate::error::PrefixError;
use crate::model::{RegistryValue, RegistryValueV};
use crate::schema::{
    AppSettings, AudioDriver, CustomSetting, D3DRenderer, DesktopEntry, DesktopSettings,
    DesktopSize, DllOverride, DllOverrideSetting, DpiSettings, FontReplacement, GraphicsDriver,
    MacDriverSettings, MouseWarpOverride, OffscreenRenderingMode, ShaderModelSettings,
    ValidationError, VirtualDesktopSettings, WindowsFloatWhenInactive, WindowsVersion,
    X11DriverSettings,
};
use crate::store::{slot_of, RegistryV, WineRegistry};
use crate::strutil;

verus! {

/// The string visible at `path`/`name`: the content of a `Str` or
/// `ExpandStr` value, and nothing for any other value type or an absent
/// slot.
pub open spec fn string_value_model(
    r: RegistryV,
    path: Seq<char>,
    name: Seq<char>,
) -> Option<Seq<char>> {
    match r.value_at(path, slot_of(name)) {
        Some(RegistryValueV::Str(s)) => Some(s),
        Some(RegistryValueV::ExpandStr(s)) => Some(s),
        _ => None,
    }
}

/// The 32-bit integer visible at `path`/`name`: the content of a `Dword`
/// value, and nothing for any other value type or an absent slot.
pub open spec fn dword_value_model(r: RegistryV, path: Seq<char>, name: Seq<char>) -> Option<u32> {
    match r.value_at(path, slot_of(name)) {
        Some(RegistryValueV::Dword(d)) => Some(d),
        _ => None,
    }
}

/// The registry after a string value is written at `path`/`name`.
pub open spec fn with_string_value(
    r: RegistryV,
    path: Seq<char>,
    name: Seq<char>,
    value: Seq<char>,
) -> RegistryV {
    r.set_value_model(path, slot_of(name), RegistryValueV::Str(value))
}

/// The registry after a 32-bit integer value is written at `path`/`name`.
pub open spec fn with_dword_value(
    r: RegistryV,
    path: Seq<char>,
    name: Seq<char>,
    value: u32,
) -> RegistryV {
    r.set_value_model(path, slot_of(name), RegistryValueV::Dword(value))
}

/// A key path accepted by user-facing validation: nonempty and starting
/// with `Software`.
pub open spec fn valid_key_path(path: Seq<char>) -> bool {
    path.len() >= 8 && path.subrange(0, 8) == "Software"@
}

/// Characters that may not occur in a value name.
pub open spec fn invalid_name_char(c: char) -> bool {
    c == '\\' || c == '/' || c == ':' || c == '*' || c == '?' || c == '"' || c == '<' || c == '>'
        || c == '|'
}

/// A value name accepted by user-facing validation: nonempty and free of
/// the reserved characters.
pub open spec fn valid_value_name(name: Seq<char>) -> bool {
    name.len() > 0 && forall|i: int| 0 <= i < name.len() ==> !invalid_name_char(#[trigger] name[i])
}

/// Checks a key path against [`valid_key_path`].
pub fn validate_key_path(key_path: &str) -> (r: Result<(), PrefixError>)
    ensures
        (r is Ok) == valid_key_path(key_path@),
        r matches Err(e) ==> e matches PrefixError::Validation(_),
{
    let chars = strutil::str_to_chars(key_path);
    if chars.len() < 8 {
        return Err(
            PrefixError::Validation(
                String::from_str("key path must be nonempty and start with 'Software'"),
            ),
        );
    }
    let prefix = strutil::str_to_chars("Software");
    proof {
        reveal_strlit("Software");
    }
    let mut i: usize = 0;
    while i < 8
        invariant
            i <= 8,
            chars@.len() >= 8,
            chars@ == key_path@,
            prefix@ == "Software"@,
            prefix@.len() == 8,
            forall|j: int| 0 <= j < i ==> chars@[j] == prefix@[j],
        decreases 8 - i,
    {
        proof {
            reveal_strlit("Software");
        }
        if chars[i] != prefix[i] {
            proof {
                assert(key_path@.subrange(0, 8)[i as int] != "Software"@[i as int]);
            }
            return Err(
                PrefixError::Validation(
                    String::from_str("key path must be nonempty and start with 'Software'"),
                ),
            );
        }
        i = i + 1;
    }
    proof {
        reveal_strlit("Software");
        assert(key_path@.subrange(0, 8) =~= "Software"@);
    }
    Ok(())
}

/// Checks a value name against [`valid_value_name`].
pub fn validate_value_name(value_name: &str) -> (r: Result<(), PrefixError>)
    ensures
        (r is Ok) == valid_value_name(value_name@),
        r matches Err(e) ==> e matches PrefixError::Validation(_),
{
    let chars = strutil::str_to_chars(value_name);
    if chars.len() == 0 {
        return Err(PrefixError::Validation(String::from_str("value name must be nonempty")));
    }
    let mut i: usize = 0;
    while i < chars.len()
        invariant
            i <= chars@.len(),
            chars@ == value_name@,
            forall|j: int| 0 <= j < i ==> !invalid_name_char(#[trigger] chars@[j]),
        decreases chars@.len() - i,
    {
        let c = chars[i];
        if c == '\\' || c == '/' || c == ':' || c == '*' || c == '?' || c == '"' || c == '<' || c
            == '>' || c == '|' {
            return Err(
                PrefixError::Validation(
                    String::from_str("value name contains an invalid character"),
                ),
            );
        }
        i = i + 1;
    }
    Ok(())
}

/// The uppercase `"Y"`/`"N"` encoding of a boolean.
pub open spec fn yn_upper(b: bool) -> Seq<char> {
    if b {
        "Y"@
    } else {
        "N"@
    }
}

/// The lowercase `"y"`/`"n"` encoding of a boolean.
pub open spec fn yn_lower(b: bool) -> Seq<char> {
    if b {
        "y"@
    } else {
        "n"@
    }
}

/// The retina-mode encoding of a boolean: `"Y"` when enabled, `"n"` when
/// disabled.
pub open spec fn yn_retina(b: bool) -> Seq<char> {
    if b {
        "Y"@
    } else {
        "n"@
    }
}

/// Decoding used by most X11 driver flags: anything but `"N"` counts as
/// enabled; an absent value stays unconfigured.
pub open spec fn decode_not_n(s: Option<Seq<char>>) -> Option<bool> {
    match s {
        Some(t) => Some(t != "N"@),
        None => None,
    }
}

/// Decoding used by the stricter X11 driver flags: only `"Y"` counts as
/// enabled.
pub open spec fn decode_is_upper_y(s: Option<Seq<char>>) -> Option<bool> {
    match s {
        Some(t) => Some(t == "Y"@),
        None => None,
    }
}

/// Decoding used by the macOS driver flags: only `"y"` counts as enabled.
pub open spec fn decode_is_lower_y(s: Option<Seq<char>>) -> Option<bool> {
    match s {
        Some(t) => Some(t == "y"@),
        None => None,
    }
}

/// The X11 driver settings visible in a registry; nothing when no X11
/// driver value is present at all.
pub open spec fn x11_settings_model(r: RegistryV) -> Option<X11DriverSettings> {
    let key = "Software\\Wine\\X11 Driver"@;
    let decorated = string_value_model(r, key, "Decorated"@);
    let csg = string_value_model(r, key, "ClientSideGraphics"@);
    let cswr = string_value_model(r, key, "ClientSideWithRender"@);
    let caar = string_value_model(r, key, "ClientSideAntiAliasWithRender"@);
    let caac = string_value_model(r, key, "ClientSideAntiAliasWithCore"@);
    let grab_fs = string_value_model(r, key, "GrabFullscreen"@);
    let grab_ptr = string_value_model(r, key, "GrabPointer"@);
    let managed = string_value_model(r, key, "Managed"@);
    let xrandr = string_value_model(r, key, "UseXRandR"@);
    let xvid = string_value_model(r, key, "UseXVidMode"@);
    if decorated is None && csg is None && cswr is None && caar is None && caac is None && grab_fs
        is None && grab_ptr is None && managed is None && xrandr is None && xvid is None {
        None
    } else {
        Some(
            X11DriverSettings {
                decorated: decode_not_n(decorated),
                client_side_graphics: decode_not_n(csg),
                client_side_with_render: decode_not_n(cswr),
                client_side_antialias_with_render: decode_not_n(caar),
                client_side_antialias_with_core: decode_not_n(caac),
                grab_fullscreen: decode_is_upper_y(grab_fs),
                grab_pointer: decode_not_n(grab_ptr),
                managed: decode_not_n(managed),
                use_xrandr: decode_not_n(xrandr),
                use_xvid_mode: decode_is_upper_y(xvid),
            },
        )
    }
}

/// The registry after X11 driver settings are written: each configured
/// field is stored as an uppercase `"Y"`/`"N"` string, in field order.
pub open spec fn x11_apply(r: RegistryV, s: X11DriverSettings) -> RegistryV {
    let key = "Software\\Wine\\X11 Driver"@;
    let r1 = match s.decorated {
        Some(b) => with_string_value(r, key, "Decorated"@, yn_upper(b)),
        None => r,
    };
    let r2 = match s.client_side_graphics {
        Some(b) => with_string_value(r1, key, "ClientSideGraphics"@, yn_upper(b)),
        None => r1,
    };
    let r3 = match s.client_side_with_render {
        Some(b) => with_string_value(r2, key, "ClientSideWithRender"@, yn_upper(b)),
        None => r2,
    };
    let r4 = match s.client_side_antialias_with_render {
        Some(b) => with_string_value(r3, key, "ClientSideAntiAliasWithRender"@, yn_upper(b)),
        None => r3,
    };
    let r5 = match s.client_side_antialias_with_core {
        Some(b) => with_string_value(r4, key, "ClientSideAntiAliasWithCore"@, yn_upper(b)),
        None => r4,
    };
    let r6 = match s.grab_fullscreen {
        Some(b) => with_string_value(r5, key, "GrabFullscreen"@, yn_upper(b)),
        None => r5,
    };
    let r7 = match s.grab_pointer {
        Some(b) => with_string_value(r6, key, "GrabPointer"@, yn_upper(b)),
        None => r6,
    };
    let r8 = match s.managed {
        Some(b) => with_string_value(r7, key, "Managed"@, yn_upper(b)),
        None => r7,
    };
    let r9 = match s.use_xrandr {
        Some(b) => with_string_value(r8, key, "UseXRandR"@, yn_upper(b)),
        None => r8,
    };
    match s.use_xvid_mode {
        Some(b) => with_string_value(r9, key, "UseXVidMode"@, yn_upper(b)),
        None => r9,
    }
}

/// The macOS driver settings visible in a registry; nothing when no macOS
/// driver value is present at all.
pub open spec fn mac_settings_model(r: RegistryV) -> Option<MacDriverSettings> {
    let key = "Software\\Wine\\Mac Driver"@;
    let sync = string_value_model(r, key, "AllowVerticalSync"@);
    let capture = string_value_model(r, key, "CaptureDisplaysForFullscreen"@);
    let scroll = string_value_model(r, key, "UsePreciseScrolling"@);
    let retina = string_value_model(r, key, "RetinaMode"@);
    let float = string_value_model(r, key, "WindowsFloatWhenInactive"@);
    if sync is None && capture is None && scroll is None && retina is None && float is None {
        None
    } else {
        Some(
            MacDriverSettings {
                allow_vertical_sync: decode_is_lower_y(sync),
                capture_displays_for_fullscreen: decode_is_lower_y(capture),
                use_precise_scrolling: decode_is_lower_y(scroll),
                retina_mode: decode_is_upper_y(retina),
                windows_float_when_inactive: match float {
                    Some(f) => WindowsFloatWhenInactive::from_str_spec(f),
                    None => None,
                },
            },
        )
    }
}

/// The registry after macOS driver settings are written: booleans as
/// lowercase `"y"`/`"n"` strings, retina mode as `"Y"`/`"n"`, the float
/// mode in its canonical spelling, in field order.
pub open spec fn mac_apply(r: RegistryV, s: MacDriverSettings) -> RegistryV {
    let key = "Software\\Wine\\Mac Driver"@;
    let r1 = match s.allow_vertical_sync {
        Some(b) => with_string_value(r, key, "AllowVerticalSync"@, yn_lower(b)),
        None => r,
    };
    let r2 = match s.capture_displays_for_fullscreen {
        Some(b) => with_string_value(r1, key, "CaptureDisplaysForFullscreen"@, yn_lower(b)),
        None => r1,
    };
    let r3 = match s.use_precise_scrolling {
        Some(b) => with_string_value(r2, key, "UsePreciseScrolling"@, yn_lower(b)),
        None => r2,
    };
    let r4 = match s.retina_mode {
        Some(b) => with_string_value(r3, key, "RetinaMode"@, yn_retina(b)),
        None => r3,
    };
    match s.windows_float_when_inactive {
        Some(m) => with_string_value(r4, key, "WindowsFloatWhenInactive"@, m.to_str_spec()),
        None => r4,
    }
}

/// The shader model settings visible in a registry; nothing when no stage
/// is configured.
pub open spec fn shader_model_settings_model(r: RegistryV) -> Option<ShaderModelSettings> {
    let key = "Software\\Wine\\Direct3D"@;
    let vs = dword_value_model(r, key, "MaxShaderModelVS"@);
    let ps = dword_value_model(r, key, "MaxShaderModelPS"@);
    let gs = dword_value_model(r, key, "MaxShaderModelGS"@);
    let hs = dword_value_model(r, key, "MaxShaderModelHS"@);
    let ds = dword_value_model(r, key, "MaxShaderModelDS"@);
    let cs = dword_value_model(r, key, "MaxShaderModelCS"@);
    if vs is None && ps is None && gs is None && hs is None && ds is None && cs is None {
        None
    } else {
        Some(
            ShaderModelSettings {
                max_shader_model_vs: vs,
                max_shader_model_ps: ps,
                max_shader_model_gs: gs,
                max_shader_model_hs: hs,
                max_shader_model_ds: ds,
                max_shader_model_cs: cs,
            },
        )
    }
}

/// The registry after shader model settings are written, in stage order.
pub open spec fn shader_model_apply(r: RegistryV, s: ShaderModelSettings) -> RegistryV {
    let key = "Software\\Wine\\Direct3D"@;
    let r1 = match s.max_shader_model_vs {
        Some(v) => with_dword_value(r, key, "MaxShaderModelVS"@, v),
        None => r,
    };
    let r2 = match s.max_shader_model_ps {
        Some(v) => with_dword_value(r1, key, "MaxShaderModelPS"@, v),
        None => r1,
    };
    let r3 = match s.max_shader_model_gs {
        Some(v) => with_dword_value(r2, key, "MaxShaderModelGS"@, v),
        None => r2,
    };
    let r4 = match s.max_shader_model_hs {
        Some(v) => with_dword_value(r3, key, "MaxShaderModelHS"@, v),
        None => r3,
    };
    let r5 = match s.max_shader_model_ds {
        Some(v) => with_dword_value(r4, key, "MaxShaderModelDS"@, v),
        None => r4,
    };
    match s.max_shader_model_cs {
        Some(v) => with_dword_value(r5, key, "MaxShaderModelCS"@, v),
        None => r5,
    }
}

/// The font replacements visible in a registry: every string value under
/// the replacements key, in storage order.
pub open spec fn font_replacements_model(r: RegistryV) -> Seq<crate::schema::FontReplacementV> {
    let key = "Software\\Wine\\Fonts\\Replacements"@;
    if r.has_key(key) {
        crate::store::rendered_entries(r.key_at(key)).filter(
            |nv: crate::store::NamedValueV| nv.value is Str,
        ).map_values(
            |nv: crate::store::NamedValueV| crate::schema::FontReplacementV {
                original: nv.name,
                replacement: nv.value->Str_0,
            },
        )
    } else {
        Seq::empty()
    }
}

/// The DLL overrides visible under one key: every string value that
/// decodes to a known override setting, in storage order.
pub open spec fn dll_overrides_model_at(r: RegistryV, key: Seq<char>) -> Seq<
    crate::schema::DllOverrideV,
> {
    if r.has_key(key) {
        crate::store::rendered_entries(r.key_at(key)).filter(
            |nv: crate::store::NamedValueV| nv.value is Str && DllOverrideSetting::from_str_spec(
                nv.value->Str_0,
            ) is Some,
        ).map_values(
            |nv: crate::store::NamedValueV| crate::schema::DllOverrideV {
                dll: nv.name,
                setting: DllOverrideSetting::from_str_spec(nv.value->Str_0)->Some_0,
            },
        )
    } else {
        Seq::empty()
    }
}

/// The desktops configured under the explorer desktops key: every string
/// value that parses as a resolution, in storage order.
pub open spec fn desktop_entries_model(r: RegistryV) -> Seq<crate::schema::DesktopEntryV> {
    let key = "Software\\Wine\\Explorer\\Desktops"@;
    if r.has_key(key) {
        crate::store::rendered_entries(r.key_at(key)).filter(
            |nv: crate::store::NamedValueV| nv.value is Str && DesktopSize::from_str_spec(
                nv.value->Str_0,
            ) is Some,
        ).map_values(
            |nv: crate::store::NamedValueV| crate::schema::DesktopEntryV {
                name: nv.name,
                size: DesktopSize::from_str_spec(nv.value->Str_0)->Some_0,
            },
        )
    } else {
        Seq::empty()
    }
}

/// The desktop settings visible in a registry.  The system tray counts as
/// shown unless a zero integer says otherwise.
pub open spec fn desktop_settings_model(r: RegistryV) -> crate::schema::DesktopSettingsV {
    let key = "Software\\Wine\\Explorer"@;
    crate::schema::DesktopSettingsV {
        desktop: string_value_model(r, key, "Desktop"@),
        desktops: desktop_entries_model(r),
        show_systray: match dword_value_model(r, key, "ShowSystray"@) {
            Some(d) => d != 0,
            None => true,
        },
    }
}

/// The registry after the named desktops are written, front to back.
pub open spec fn apply_desktop_entries(
    r: RegistryV,
    es: Seq<crate::schema::DesktopEntryV>,
) -> RegistryV
    decreases es.len(),
{
    if es.len() == 0 {
        r
    } else {
        apply_desktop_entries(
            with_string_value(
                r,
                "Software\\Wine\\Explorer\\Desktops"@,
                es[0].name,
                es[0].size.to_str_spec(),
            ),
            es.skip(1),
        )
    }
}

/// The registry after desktop settings are written: the active desktop
/// name (when configured), the system tray flag, then every desktop
/// resolution.
pub open spec fn desktop_apply(r: RegistryV, s: crate::schema::DesktopSettingsV) -> RegistryV {
    let key = "Software\\Wine\\Explorer"@;
    let r1 = match s.desktop {
        Some(d) => with_string_value(r, key, "Desktop"@, d),
        None => r,
    };
    let r2 = with_dword_value(
        r1,
        key,
        "ShowSystray"@,
        if s.show_systray {
            1u32
        } else {
            0u32
        },
    );
    apply_desktop_entries(r2, s.desktops)
}

/// Holds when `i` is the position of the first desktop of the given name.
pub open spec fn entry_first_at(
    es: Seq<crate::schema::DesktopEntryV>,
    name: Seq<char>,
    i: int,
) -> bool {
    &&& 0 <= i < es.len()
    &&& es[i].name == name
    &&& forall|j: int| 0 <= j < i ==> (#[trigger] es[j]).name != name
}

/// The resolution of the first desktop of the given name, if any.
pub open spec fn desktops_lookup(
    es: Seq<crate::schema::DesktopEntryV>,
    name: Seq<char>,
) -> Option<DesktopSize> {
    if exists|i: int| entry_first_at(es, name, i) {
        Some(es[choose|i: int| entry_first_at(es, name, i)].size)
    } else {
        None
    }
}

/// The virtual desktop visible in a registry: enabled exactly when the
/// configured active desktop name has a resolution on record.
pub open spec fn virtual_desktop_model(r: RegistryV) -> Option<VirtualDesktopSettings> {
    let ds = desktop_settings_model(r);
    match ds.desktop {
        Some(name) => match desktops_lookup(ds.desktops, name) {
            Some(size) => Some(
                VirtualDesktopSettings { enabled: true, width: size.width, height: size.height },
            ),
            None => None,
        },
        None => None,
    }
}

/// The key that holds the settings of one application.
pub open spec fn app_key_of(app: Seq<char>) -> Seq<char> {
    "Software\\Wine\\AppDefaults\\"@ + app
}

/// The application settings visible in a registry; nothing when the
/// application has no key.  Only DLL overrides, the renderer and the
/// offscreen rendering mode are read back.
pub open spec fn app_settings_model(r: RegistryV, app: Seq<char>) -> Option<
    crate::schema::AppSettingsV,
> {
    let base = app_key_of(app);
    if r.has_key(base) {
        Some(
            crate::schema::AppSettingsV {
                name: app,
                dll_overrides: dll_overrides_model_at(r, base + "\\DllOverrides"@),
                d3d_renderer: match string_value_model(r, base + "\\Direct3D"@, "renderer"@) {
                    Some(s) => D3DRenderer::from_str_spec(s),
                    None => None,
                },
                offscreen_rendering_mode: match string_value_model(
                    r,
                    base + "\\Direct3D"@,
                    "OffscreenRenderingMode"@,
                ) {
                    Some(s) => OffscreenRenderingMode::from_str_spec(s),
                    None => None,
                },
                desktop_settings: None,
                custom_settings: Seq::empty(),
            },
        )
    } else {
        None
    }
}

/// The registry after the DLL overrides are written under `key`, front to
/// back.
pub open spec fn apply_dll_overrides(
    r: RegistryV,
    key: Seq<char>,
    ovs: Seq<crate::schema::DllOverrideV>,
) -> RegistryV
    decreases ovs.len(),
{
    if ovs.len() == 0 {
        r
    } else {
        apply_dll_overrides(
            with_string_value(r, key, ovs[0].dll, ovs[0].setting.to_str_spec()),
            key,
            ovs.skip(1),
        )
    }
}

/// The registry after the custom settings are written under `key`, front
/// to back.
pub open spec fn apply_custom_settings(
    r: RegistryV,
    key: Seq<char>,
    cs: Seq<crate::schema::CustomSettingV>,
) -> RegistryV
    decreases cs.len(),
{
    if cs.len() == 0 {
        r
    } else {
        apply_custom_settings(with_string_value(r, key, cs[0].key, cs[0].value), key, cs.skip(1))
    }
}

/// The registry after application settings are written: the DLL
/// overrides, then the renderer and offscreen rendering mode when
/// configured, then the custom settings.
pub open spec fn app_apply(
    r: RegistryV,
    app: Seq<char>,
    s: crate::schema::AppSettingsV,
) -> RegistryV {
    let base = app_key_of(app);
    let r1 = apply_dll_overrides(r, base + "\\DllOverrides"@, s.dll_overrides);
    let r2 = match s.d3d_renderer {
        Some(x) => with_string_value(r1, base + "\\Direct3D"@, "renderer"@, x.to_str_spec()),
        None => r1,
    };
    let r3 = match s.offscreen_rendering_mode {
        Some(m) => with_string_value(
            r2,
            base + "\\Direct3D"@,
            "OffscreenRenderingMode"@,
            m.to_str_spec(),
        ),
        None => r2,
    };
    apply_custom_settings(r3, base, s.custom_settings)
}

/// The message reported for an invalid value name.
pub open spec fn name_err_msg(n: Seq<char>) -> Seq<char> {
    if n.len() == 0 {
        "value name must be nonempty"@
    } else {
        "value name contains an invalid character"@
    }
}

/// The violations reported for one key: one error for a bad key path, or
/// one error per offending value name.
pub open spec fn key_validation_errs(k: crate::store::KeyV) -> Seq<crate::schema::ValidationErrorV> {
    if !valid_key_path(k.path) {
        seq![
            crate::schema::ValidationErrorV {
                key_path: k.path,
                value_name: None,
                error_message: "key path must be nonempty and start with 'Software'"@,
            },
        ]
    } else {
        crate::store::rendered_entries(k).filter(
            |nv: crate::store::NamedValueV| !valid_value_name(nv.name),
        ).map_values(
            |nv: crate::store::NamedValueV| crate::schema::ValidationErrorV {
                key_path: k.path,
                value_name: Some(nv.name),
                error_message: name_err_msg(nv.name),
            },
        )
    }
}

/// All violations in a registry, key by key in storage order.
pub open spec fn validation_model(keys: Seq<crate::store::KeyV>) -> Seq<
    crate::schema::ValidationErrorV,
>
    decreases keys.len(),
{
    if keys.len() == 0 {
        Seq::empty()
    } else {
        validation_model(keys.drop_last()) + key_validation_errs(keys.last())
    }
}

/// The typed settings facade over one registry store.
#[derive(Debug)]
pub struct RegistryEditor {
    /// The registry being edited.
    pub registry: WineRegistry,
    /// The prefix directory this registry belongs to, if known.
    pub prefix_path: Option<String>,
}

impl RegistryEditor {
    /// Well-formedness of the underlying registry.
    pub open spec fn wf(&self) -> bool {
        self.registry@.wf()
    }

    /// The registry view the contracts speak of.
    pub open spec fn model(&self) -> RegistryV {
        self.registry@
    }

    /// An editor over a new empty registry.
    pub fn new() -> (r: Self)
        ensures
            r.wf(),
            r.model().keys.len() == 0,
            r.prefix_path is None,
    {
        RegistryEditor { registry: WineRegistry::new(), prefix_path: None }
    }

    /// An editor over an already loaded registry.
    pub fn with_registry(registry: WineRegistry, prefix_path: Option<String>) -> (r: Self)
        requires
            registry@.wf(),
        ensures
            r.wf(),
            r.model() == registry@,
    {
        RegistryEditor { registry, prefix_path }
    }

    /// A reference to the underlying registry.
    pub fn registry(&self) -> (r: &WineRegistry)
        ensures
            r@ == self.model(),
    {
        &self.registry
    }

    /// Reads the string at `key_path`/`value_name`, if a string is there.
    pub fn get_string_value(&self, key_path: &str, value_name: &str) -> (r: Result<
        Option<String>,
        PrefixError,
    >)
        requires
            self.wf(),
        ensures
            r matches Ok(v) && (match v {
                Some(s) => string_value_model(self.model(), key_path@, value_name@) == Some(s@),
                None => string_value_model(self.model(), key_path@, value_name@) is None,
            }),
    {
        match self.registry.get_value(key_path, value_name) {
            Ok(Some(RegistryValue::Str(s))) => Ok(Some(s)),
            Ok(Some(RegistryValue::ExpandStr(s))) => Ok(Some(s)),
            Ok(_) => Ok(None),
            Err(e) => Err(e),
        }
    }

    /// Writes a string value at `key_path`/`value_name`.
    pub fn set_string_value(&mut self, key_path: &str, value_name: &str, value: &str) -> (r:
        Result<(), PrefixError>)
        requires
            old(self).wf(),
        ensures
            r is Ok,
            final(self).wf(),
            final(self).model() == with_string_value(
                old(self).model(),
                key_path@,
                value_name@,
                value@,
            ),
            final(self).prefix_path == old(self).prefix_path,
    {
        self.registry.set_value(
            key_path,
            value_name,
            RegistryValue::Str(String::from_str(value)),
        )
    }

    /// Reads the 32-bit integer at `key_path`/`value_name`, if one is
    /// there.
    pub fn get_dword_value(&self, key_path: &str, value_name: &str) -> (r: Result<
        Option<u32>,
        PrefixError,
    >)
        requires
            self.wf(),
        ensures
            r matches Ok(v) && v == dword_value_model(self.model(), key_path@, value_name@),
    {
        match self.registry.get_value(key_path, value_name) {
            Ok(Some(RegistryValue::Dword(d))) => Ok(Some(d)),
            Ok(_) => Ok(None),
            Err(e) => Err(e),
        }
    }

    /// Writes a 32-bit integer value at `key_path`/`value_name`.
    pub fn set_dword_value(&mut self, key_path: &str, value_name: &str, value: u32) -> (r: Result<
        (),
        PrefixError,
    >)
        requires
            old(self).wf(),
        ensures
            r is Ok,
            final(self).wf(),
            final(self).model() == with_dword_value(
                old(self).model(),
                key_path@,
                value_name@,
                value,
            ),
            final(self).prefix_path == old(self).prefix_path,
    {
        self.registry.set_value(key_path, value_name, RegistryValue::Dword(value))
    }

    /// The stored Windows version string, if any.
    pub fn get_windows_version(&self) -> (r: Result<Option<String>, PrefixError>)
        requires
            self.wf(),
        ensures
            r matches Ok(v) && (match v {
                Some(s) => string_value_model(self.model(), "Software\\Wine"@, "Version"@) == Some(
                    s@,
                ),
                None => string_value_model(self.model(), "Software\\Wine"@, "Version"@) is None,
            }),
    {
        self.get_string_value("Software\\Wine", "Version")
    }

    /// Sets the Windows version.  The string must be a recognized version
    /// name; it is stored in its canonical spelling.
    pub fn set_windows_version(&mut self, version: &str) -> (r: Result<(), PrefixError>)
        requires
            old(self).wf(),
        ensures
            (r is Ok) == (WindowsVersion::from_str_spec(version@) is Some),
            final(self).wf(),
            r matches Ok(_) ==> final(self).model() == with_string_value(
                old(self).model(),
                "Software\\Wine"@,
                "Version"@,
                WindowsVersion::from_str_spec(version@)->Some_0.to_str_spec(),
            ),
            r is Err ==> final(self).model() == old(self).model() && (r matches Err(e)
                && e matches PrefixError::Validation(_)),
            final(self).prefix_path == old(self).prefix_path,
    {
        match WindowsVersion::from_string(version) {
            Some(parsed) => self.set_string_value("Software\\Wine", "Version", parsed.to_string()),
            None => Err(
                PrefixError::Validation(String::from_str("unrecognized Windows version")),
            ),
        }
    }

    /// The stored Direct3D renderer string, if any.
    pub fn get_d3d_renderer(&self) -> (r: Result<Option<String>, PrefixError>)
        requires
            self.wf(),
        ensures
            r matches Ok(v) && (match v {
                Some(s) => string_value_model(
                    self.model(),
                    "Software\\Wine\\Direct3D"@,
                    "renderer"@,
                ) == Some(s@),
                None => string_value_model(
                    self.model(),
                    "Software\\Wine\\Direct3D"@,
                    "renderer"@,
                ) is None,
            }),
    {
        self.get_string_value("Software\\Wine\\Direct3D", "renderer")
    }

    /// Sets the Direct3D renderer.  The string must name a recognized
    /// renderer; it is stored in its canonical spelling.
    pub fn set_d3d_renderer(&mut self, renderer: &str) -> (r: Result<(), PrefixError>)
        requires
            old(self).wf(),
        ensures
            (r is Ok) == (D3DRenderer::from_str_spec(renderer@) is Some),
            final(self).wf(),
            r matches Ok(_) ==> final(self).model() == with_string_value(
                old(self).model(),
                "Software\\Wine\\Direct3D"@,
                "renderer"@,
                D3DRenderer::from_str_spec(renderer@)->Some_0.to_str_spec(),
            ),
            r is Err ==> final(self).model() == old(self).model() && (r matches Err(e)
                && e matches PrefixError::Validation(_)),
            final(self).prefix_path == old(self).prefix_path,
    {
        match D3DRenderer::from_string(renderer) {
            Some(parsed) => self.set_string_value(
                "Software\\Wine\\Direct3D",
                "renderer",
                parsed.to_string(),
            ),
            None => Err(
                PrefixError::Validation(String::from_str("unrecognized Direct3D renderer")),
            ),
        }
    }

    /// The stored CSMT flag, if any: 1 enabled, 0 disabled.
    pub fn get_d3d_csmt(&self) -> (r: Result<Option<u32>, PrefixError>)
        requires
            self.wf(),
        ensures
            r matches Ok(v) && v == dword_value_model(
                self.model(),
                "Software\\Wine\\Direct3D"@,
                "csmt"@,
            ),
    {
        self.get_dword_value("Software\\Wine\\Direct3D", "csmt")
    }

    /// Enables or disables CSMT, stored as a 0/1 integer.
    pub fn set_d3d_csmt(&mut self, enabled: bool) -> (r: Result<(), PrefixError>)
        requires
            old(self).wf(),
        ensures
            r is Ok,
            final(self).wf(),
            final(self).model() == with_dword_value(
                old(self).model(),
                "Software\\Wine\\Direct3D"@,
                "csmt"@,
                if enabled {
                    1u32
                } else {
                    0u32
                },
            ),
            final(self).prefix_path == old(self).prefix_path,
    {
        let value: u32 = if enabled {
            1
        } else {
            0
        };
        self.set_dword_value("Software\\Wine\\Direct3D", "csmt", value)
    }

    /// The stored offscreen rendering mode string, if any.
    pub fn get_offscreen_rendering_mode(&self) -> (r: Result<Option<String>, PrefixError>)
        requires
            self.wf(),
        ensures
            r matches Ok(v) && (match v {
                Some(s) => string_value_model(
                    self.model(),
                    "Software\\Wine\\Direct3D"@,
                    "OffscreenRenderingMode"@,
                ) == Some(s@),
                None => string_value_model(
                    self.model(),
                    "Software\\Wine\\Direct3D"@,
                    "OffscreenRenderingMode"@,
                ) is None,
            }),
    {
        self.get_string_value("Software\\Wine\\Direct3D", "OffscreenRenderingMode")
    }

    /// Sets the offscreen rendering mode.  The string must name a
    /// recognized mode; it is stored in its canonical spelling.
    pub fn set_offscreen_rendering_mode(&mut self, mode: &str) -> (r: Result<(), PrefixError>)
        requires
            old(self).wf(),
        ensures
            (r is Ok) == (OffscreenRenderingMode::from_str_spec(mode@) is Some),
            final(self).wf(),
            r matches Ok(_) ==> final(self).model() == with_string_value(
                old(self).model(),
                "Software\\Wine\\Direct3D"@,
                "OffscreenRenderingMode"@,
                OffscreenRenderingMode::from_str_spec(mode@)->Some_0.to_str_spec(),
            ),
            r is Err ==> final(self).model() == old(self).model() && (r matches Err(e)
                && e matches PrefixError::Validation(_)),
            final(self).prefix_path == old(self).prefix_path,
    {
        match OffscreenRenderingMode::from_string(mode) {
            Some(parsed) => self.set_string_value(
                "Software\\Wine\\Direct3D",
                "OffscreenRenderingMode",
                parsed.to_string(),
            ),
            None => Err(
                PrefixError::Validation(String::from_str("unrecognized offscreen rendering mode")),
            ),
        }
    }

    /// The stored mouse warp override string, if any.
    pub fn get_mouse_warp_override(&self) -> (r: Result<Option<String>, PrefixError>)
        requires
            self.wf(),
        ensures
            r matches Ok(v) && (match v {
                Some(s) => string_value_model(
                    self.model(),
                    "Software\\Wine\\DirectInput"@,
                    "MouseWarpOverride"@,
                ) == Some(s@),
                None => string_value_model(
                    self.model(),
                    "Software\\Wine\\DirectInput"@,
                    "MouseWarpOverride"@,
                ) is None,
            }),
    {
        self.get_string_value("Software\\Wine\\DirectInput", "MouseWarpOverride")
    }

    /// Sets the mouse warp override.  The string must name a recognized
    /// mode; it is stored in its canonical spelling.
    pub fn set_mouse_warp_override(&mut self, mode: &str) -> (r: Result<(), PrefixError>)
        requires
            old(self).wf(),
        ensures
            (r is Ok) == (MouseWarpOverride::from_str_spec(mode@) is Some),
            final(self).wf(),
            r matches Ok(_) ==> final(self).model() == with_string_value(
                old(self).model(),
                "Software\\Wine\\DirectInput"@,
                "MouseWarpOverride"@,
                MouseWarpOverride::from_str_spec(mode@)->Some_0.to_str_spec(),
            ),
            r is Err ==> final(self).model() == old(self).model() && (r matches Err(e)
                && e matches PrefixError::Validation(_)),
            final(self).prefix_path == old(self).prefix_path,
    {
        match MouseWarpOverride::from_string(mode) {
            Some(parsed) => self.set_string_value(
                "Software\\Wine\\DirectInput",
                "MouseWarpOverride",
                parsed.to_string(),
            ),
            None => Err(
                PrefixError::Validation(String::from_str("unrecognized mouse warp override")),
            ),
        }
    }

    /// The stored audio driver string (the default slot of the audio
    /// drivers key), if any.
    pub fn get_audio_driver(&self) -> (r: Result<Option<String>, PrefixError>)
        requires
            self.wf(),
        ensures
            r matches Ok(v) && (match v {
                Some(s) => string_value_model(
                    self.model(),
                    "Software\\Wine\\Drivers\\Audio"@,
                    ""@,
                ) == Some(s@),
                None => string_value_model(
                    self.model(),
                    "Software\\Wine\\Drivers\\Audio"@,
                    ""@,
                ) is None,
            }),
    {
        self.get_string_value("Software\\Wine\\Drivers\\Audio", "")
    }

    /// Sets the audio driver, stored in the default slot of the audio
    /// drivers key.  The string must name a recognized driver.
    pub fn set_audio_driver(&mut self, driver: &str) -> (r: Result<(), PrefixError>)
        requires
            old(self).wf(),
        ensures
            (r is Ok) == (AudioDriver::from_str_spec(driver@) is Some),
            final(self).wf(),
            r matches Ok(_) ==> final(self).model() == with_string_value(
                old(self).model(),
                "Software\\Wine\\Drivers\\Audio"@,
                ""@,
                AudioDriver::from_str_spec(driver@)->Some_0.to_str_spec(),
            ),
            r is Err ==> final(self).model() == old(self).model() && (r matches Err(e)
                && e matches PrefixError::Validation(_)),
            final(self).prefix_path == old(self).prefix_path,
    {
        match AudioDriver::from_string(driver) {
            Some(parsed) => self.set_string_value(
                "Software\\Wine\\Drivers\\Audio",
                "",
                parsed.to_string(),
            ),
            None => Err(PrefixError::Validation(String::from_str("unrecognized audio driver"))),
        }
    }

    /// The stored graphics driver string (the default slot of the graphics
    /// drivers key), if any.
    pub fn get_graphics_driver(&self) -> (r: Result<Option<String>, PrefixError>)
        requires
            self.wf(),
        ensures
            r matches Ok(v) && (match v {
                Some(s) => string_value_model(
                    self.model(),
                    "Software\\Wine\\Drivers\\Graphics"@,
                    ""@,
                ) == Some(s@),
                None => string_value_model(
                    self.model(),
                    "Software\\Wine\\Drivers\\Graphics"@,
                    ""@,
                ) is None,
            }),
    {
        self.get_string_value("Software\\Wine\\Drivers\\Graphics", "")
    }

    /// Sets the graphics driver, stored in the default slot of the
    /// graphics drivers key.  The string must name a recognized driver.
    pub fn set_graphics_driver(&mut self, driver: &str) -> (r: Result<(), PrefixError>)
        requires
            old(self).wf(),
        ensures
            (r is Ok) == (GraphicsDriver::from_str_spec(driver@) is Some),
            final(self).wf(),
            r matches Ok(_) ==> final(self).model() == with_string_value(
                old(self).model(),
                "Software\\Wine\\Drivers\\Graphics"@,
                ""@,
                GraphicsDriver::from_str_spec(driver@)->Some_0.to_str_spec(),
            ),
            r is Err ==> final(self).model() == old(self).model() && (r matches Err(e)
                && e matches PrefixError::Validation(_)),
            final(self).prefix_path == old(self).prefix_path,
    {
        match GraphicsDriver::from_string(driver) {
            Some(parsed) => self.set_string_value(
                "Software\\Wine\\Drivers\\Graphics",
                "",
                parsed.to_string(),
            ),
            None => Err(
                PrefixError::Validation(String::from_str("unrecognized graphics driver")),
            ),
        }
    }

    /// The stored video memory size in megabytes, if any.
    pub fn get_video_memory_size(&self) -> (r: Result<Option<u32>, PrefixError>)
        requires
            self.wf(),
        ensures
            r matches Ok(v) && v == dword_value_model(
                self.model(),
                "Software\\Wine\\Direct3D"@,
                "VideoMemorySize"@,
            ),
    {
        self.get_dword_value("Software\\Wine\\Direct3D", "VideoMemorySize")
    }

    /// Sets the video memory size.  The size must be between 1 and 16384
    /// megabytes; out-of-range sizes are rejected without touching the
    /// store.
    pub fn set_video_memory_size(&mut self, size_mb: u32) -> (r: Result<(), PrefixError>)
        requires
            old(self).wf(),
        ensures
            (r is Ok) == (1 <= size_mb <= 16384),
            final(self).wf(),
            r matches Ok(_) ==> final(self).model() == with_dword_value(
                old(self).model(),
                "Software\\Wine\\Direct3D"@,
                "VideoMemorySize"@,
                size_mb,
            ),
            r is Err ==> final(self).model() == old(self).model() && (r matches Err(e)
                && e matches PrefixError::Validation(_)),
            final(self).prefix_path == old(self).prefix_path,
    {
        if size_mb == 0 || size_mb > 16384 {
            return Err(
                PrefixError::Validation(
                    String::from_str("video memory size must be between 1 and 16384 MB"),
                ),
            );
        }
        self.set_dword_value("Software\\Wine\\Direct3D", "VideoMemorySize", size_mb)
    }

    /// The stored DPI settings; nothing when no DPI is configured.
    pub fn get_dpi_settings(&self) -> (r: Result<Option<DpiSettings>, PrefixError>)
        requires
            self.wf(),
        ensures
            r matches Ok(v) && v == (match dword_value_model(
                self.model(),
                "Control Panel\\Desktop"@,
                "LogPixels"@,
            ) {
                Some(d) => Some(DpiSettings { log_pixels: Some(d) }),
                None => None::<DpiSettings>,
            }),
    {
        match self.get_dword_value("Control Panel\\Desktop", "LogPixels") {
            Ok(Some(d)) => Ok(Some(DpiSettings { log_pixels: Some(d) })),
            Ok(None) => Ok(None),
            Err(e) => Err(e),
        }
    }

    /// Sets the display DPI.  A configured DPI below 96 is rejected without
    /// touching the store; settings with no DPI leave the store unchanged.
    pub fn set_dpi_settings(&mut self, settings: &DpiSettings) -> (r: Result<(), PrefixError>)
        requires
            old(self).wf(),
        ensures
            (r is Ok) == (match settings.log_pixels {
                Some(dpi) => dpi >= 96,
                None => true,
            }),
            final(self).wf(),
            r matches Ok(_) ==> final(self).model() == (match settings.log_pixels {
                Some(dpi) => with_dword_value(
                    old(self).model(),
                    "Control Panel\\Desktop"@,
                    "LogPixels"@,
                    dpi,
                ),
                None => old(self).model(),
            }),
            r is Err ==> final(self).model() == old(self).model() && (r matches Err(e)
                && e matches PrefixError::Validation(_)),
            final(self).prefix_path == old(self).prefix_path,
    {
        match settings.log_pixels {
            Some(dpi) => {
                if dpi < 96 {
                    return Err(
                        PrefixError::Validation(String::from_str("DPI must be at least 96")),
                    );
                }
                self.set_dword_value("Control Panel\\Desktop", "LogPixels", dpi)
            },
            None => Ok(()),
        }
    }

    /// The stored X11 driver settings; nothing when no X11 driver value is
    /// present at all.
    pub fn get_x11_driver_settings(&self) -> (r: Result<Option<X11DriverSettings>, PrefixError>)
        requires
            self.wf(),
        ensures
            r matches Ok(v) && v == x11_settings_model(self.model()),
    {
        let key = "Software\\Wine\\X11 Driver";
        let decorated = self.get_string_value(key, "Decorated")?;
        let csg = self.get_string_value(key, "ClientSideGraphics")?;
        let cswr = self.get_string_value(key, "ClientSideWithRender")?;
        let caar = self.get_string_value(key, "ClientSideAntiAliasWithRender")?;
        let caac = self.get_string_value(key, "ClientSideAntiAliasWithCore")?;
        let grab_fs = self.get_string_value(key, "GrabFullscreen")?;
        let grab_ptr = self.get_string_value(key, "GrabPointer")?;
        let managed = self.get_string_value(key, "Managed")?;
        let xrandr = self.get_string_value(key, "UseXRandR")?;
        let xvid = self.get_string_value(key, "UseXVidMode")?;
        if decorated.is_none() && csg.is_none() && cswr.is_none() && caar.is_none()
            && caac.is_none() && grab_fs.is_none() && grab_ptr.is_none() && managed.is_none()
            && xrandr.is_none() && xvid.is_none() {
            return Ok(None);
        }
        Ok(
            Some(
                X11DriverSettings {
                    decorated: decode_not_n_exec(&decorated),
                    client_side_graphics: decode_not_n_exec(&csg),
                    client_side_with_render: decode_not_n_exec(&cswr),
                    client_side_antialias_with_render: decode_not_n_exec(&caar),
                    client_side_antialias_with_core: decode_not_n_exec(&caac),
                    grab_fullscreen: decode_is_y_exec(&grab_fs, true),
                    grab_pointer: decode_not_n_exec(&grab_ptr),
                    managed: decode_not_n_exec(&managed),
                    use_xrandr: decode_not_n_exec(&xrandr),
                    use_xvid_mode: decode_is_y_exec(&xvid, true),
                },
            ),
        )
    }

    /// Writes the configured X11 driver fields, each as an uppercase
    /// `"Y"`/`"N"` string.
    #[verifier::rlimit(60)]
    pub fn set_x11_driver_settings(&mut self, settings: &X11DriverSettings) -> (r: Result<
        (),
        PrefixError,
    >)
        requires
            old(self).wf(),
        ensures
            r is Ok,
            final(self).wf(),
            final(self).model() == x11_apply(old(self).model(), *settings),
            final(self).prefix_path == old(self).prefix_path,
    {
        let key = "Software\\Wine\\X11 Driver";
        if let Some(b) = settings.decorated {
            self.set_string_value(key, "Decorated", if b { "Y" } else { "N" })?;
        }
        if let Some(b) = settings.client_side_graphics {
            self.set_string_value(key, "ClientSideGraphics", if b { "Y" } else { "N" })?;
        }
        if let Some(b) = settings.client_side_with_render {
            self.set_string_value(key, "ClientSideWithRender", if b { "Y" } else { "N" })?;
        }
        if let Some(b) = settings.client_side_antialias_with_render {
            self.set_string_value(key, "ClientSideAntiAliasWithRender", if b { "Y" } else { "N" })?;
        }
        if let Some(b) = settings.client_side_antialias_with_core {
            self.set_string_value(key, "ClientSideAntiAliasWithCore", if b { "Y" } else { "N" })?;
        }
        if let Some(b) = settings.grab_fullscreen {
            self.set_string_value(key, "GrabFullscreen", if b { "Y" } else { "N" })?;
        }
        if let Some(b) = settings.grab_pointer {
            self.set_string_value(key, "GrabPointer", if b { "Y" } else { "N" })?;
        }
        if let Some(b) = settings.managed {
            self.set_string_value(key, "Managed", if b { "Y" } else { "N" })?;
        }
        if let Some(b) = settings.use_xrandr {
            self.set_string_value(key, "UseXRandR", if b { "Y" } else { "N" })?;
        }
        if let Some(b) = settings.use_xvid_mode {
            self.set_string_value(key, "UseXVidMode", if b { "Y" } else { "N" })?;
        }
        Ok(())
    }

    /// The stored macOS driver settings; nothing when no macOS driver
    /// value is present at all.
    pub fn get_mac_driver_settings(&self) -> (r: Result<Option<MacDriverSettings>, PrefixError>)
        requires
            self.wf(),
        ensures
            r matches Ok(v) && v == mac_settings_model(self.model()),
    {
        let key = "Software\\Wine\\Mac Driver";
        let sync = self.get_string_value(key, "AllowVerticalSync")?;
        let capture = self.get_string_value(key, "CaptureDisplaysForFullscreen")?;
        let scroll = self.get_string_value(key, "UsePreciseScrolling")?;
        let retina = self.get_string_value(key, "RetinaMode")?;
        let float = self.get_string_value(key, "WindowsFloatWhenInactive")?;
        if sync.is_none() && capture.is_none() && scroll.is_none() && retina.is_none()
            && float.is_none() {
            return Ok(None);
        }
        let float_mode = match &float {
            Some(f) => WindowsFloatWhenInactive::from_string(f.as_str()),
            None => None,
        };
        Ok(
            Some(
                MacDriverSettings {
                    allow_vertical_sync: decode_is_y_exec(&sync, false),
                    capture_displays_for_fullscreen: decode_is_y_exec(&capture, false),
                    use_precise_scrolling: decode_is_y_exec(&scroll, false),
                    retina_mode: decode_is_y_exec(&retina, true),
                    windows_float_when_inactive: float_mode,
                },
            ),
        )
    }

    /// Writes the configured macOS driver fields: booleans as lowercase
    /// `"y"`/`"n"` strings, retina mode as `"Y"`/`"n"`, the float mode in
    /// its canonical spelling.
    pub fn set_mac_driver_settings(&mut self, settings: &MacDriverSettings) -> (r: Result<
        (),
        PrefixError,
    >)
        requires
            old(self).wf(),
        ensures
            r is Ok,
            final(self).wf(),
            final(self).model() == mac_apply(old(self).model(), *settings),
            final(self).prefix_path == old(self).prefix_path,
    {
        let key = "Software\\Wine\\Mac Driver";
        if let Some(b) = settings.allow_vertical_sync {
            self.set_string_value(key, "AllowVerticalSync", if b { "y" } else { "n" })?;
        }
        if let Some(b) = settings.capture_displays_for_fullscreen {
            self.set_string_value(key, "CaptureDisplaysForFullscreen", if b { "y" } else { "n" })?;
        }
        if let Some(b) = settings.use_precise_scrolling {
            self.set_string_value(key, "UsePreciseScrolling", if b { "y" } else { "n" })?;
        }
        if let Some(b) = settings.retina_mode {
            self.set_string_value(key, "RetinaMode", if b { "Y" } else { "n" })?;
        }
        if let Some(m) = &settings.windows_float_when_inactive {
            self.set_string_value(key, "WindowsFloatWhenInactive", m.to_string())?;
        }
        Ok(())
    }

    /// The stored shader model settings; nothing when no stage is
    /// configured.
    pub fn get_shader_model_settings(&self) -> (r: Result<
        Option<ShaderModelSettings>,
        PrefixError,
    >)
        requires
            self.wf(),
        ensures
            r matches Ok(v) && v == shader_model_settings_model(self.model()),
    {
        let key = "Software\\Wine\\Direct3D";
        let vs = self.get_dword_value(key, "MaxShaderModelVS")?;
        let ps = self.get_dword_value(key, "MaxShaderModelPS")?;
        let gs = self.get_dword_value(key, "MaxShaderModelGS")?;
        let hs = self.get_dword_value(key, "MaxShaderModelHS")?;
        let ds = self.get_dword_value(key, "MaxShaderModelDS")?;
        let cs = self.get_dword_value(key, "MaxShaderModelCS")?;
        if vs.is_none() && ps.is_none() && gs.is_none() && hs.is_none() && ds.is_none()
            && cs.is_none() {
            return Ok(None);
        }
        Ok(
            Some(
                ShaderModelSettings {
                    max_shader_model_vs: vs,
                    max_shader_model_ps: ps,
                    max_shader_model_gs: gs,
                    max_shader_model_hs: hs,
                    max_shader_model_ds: ds,
                    max_shader_model_cs: cs,
                },
            ),
        )
    }

    /// Writes the configured shader model stages.
    pub fn set_shader_model_settings(&mut self, settings: &ShaderModelSettings) -> (r: Result<
        (),
        PrefixError,
    >)
        requires
            old(self).wf(),
        ensures
            r is Ok,
            final(self).wf(),
            final(self).model() == shader_model_apply(old(self).model(), *settings),
            final(self).prefix_path == old(self).prefix_path,
    {
        let key = "Software\\Wine\\Direct3D";
        if let Some(v) = settings.max_shader_model_vs {
            self.set_dword_value(key, "MaxShaderModelVS", v)?;
        }
        if let Some(v) = settings.max_shader_model_ps {
            self.set_dword_value(key, "MaxShaderModelPS", v)?;
        }
        if let Some(v) = settings.max_shader_model_gs {
            self.set_dword_value(key, "MaxShaderModelGS", v)?;
        }
        if let Some(v) = settings.max_shader_model_hs {
            self.set_dword_value(key, "MaxShaderModelHS", v)?;
        }
        if let Some(v) = settings.max_shader_model_ds {
            self.set_dword_value(key, "MaxShaderModelDS", v)?;
        }
        if let Some(v) = settings.max_shader_model_cs {
            self.set_dword_value(key, "MaxShaderModelCS", v)?;
        }
        Ok(())
    }

    /// The stored font replacements, in storage order.
    pub fn get_font_replacements(&self) -> (r: Result<Vec<FontReplacement>, PrefixError>)
        requires
            self.wf(),
        ensures
            r matches Ok(v) && v.deep_view() == font_replacements_model(self.model()),
    {
        let values = self.registry.get_key_values("Software\\Wine\\Fonts\\Replacements")?;
        let ghost all = if self.model().has_key("Software\\Wine\\Fonts\\Replacements"@) {
            crate::store::rendered_entries(
                self.model().key_at("Software\\Wine\\Fonts\\Replacements"@),
            )
        } else {
            Seq::<crate::store::NamedValueV>::empty()
        };
        let ghost pred = |nv: crate::store::NamedValueV| nv.value is Str;
        let ghost f = |nv: crate::store::NamedValueV| crate::schema::FontReplacementV {
            original: nv.name,
            replacement: nv.value->Str_0,
        };
        let mut r: Vec<FontReplacement> = Vec::new();
        let mut i: usize = 0;
        proof {
            reveal(Seq::filter);
            assert(all.subrange(0, 0) =~= Seq::<crate::store::NamedValueV>::empty());
            assert(r.deep_view() =~= Seq::<crate::schema::FontReplacementV>::empty());
        }
        while i < values.len()
            invariant
                i <= values@.len(),
                values.deep_view() == all,
                all.len() == values@.len(),
                pred == (|nv: crate::store::NamedValueV| nv.value is Str),
                f == (|nv: crate::store::NamedValueV| crate::schema::FontReplacementV {
                    original: nv.name,
                    replacement: nv.value->Str_0,
                }),
                r.deep_view() == all.subrange(0, i as int).filter(pred).map_values(f),
            decreases values@.len() - i,
        {
            let ghost prefix = all.subrange(0, i as int);
            let ghost before = r.deep_view();
            let entry = &values[i];
            proof {
                assert(entry@ == all[i as int]);
            }
            let ghost rv_before = r@;
            match &entry.value {
                RegistryValue::Str(s) => {
                    let fr = FontReplacement { original: entry.name.clone(), replacement: s.clone() };
                    let ghost frg = fr;
                    proof {
                        assert(frg@ == f(all[i as int]));
                    }
                    r.push(fr);
                    proof {
                        assert(before == Seq::new(rv_before.len(), |t: int| rv_before[t].deep_view()));
                        assert(r@ == rv_before.push(frg));
                        assert forall|t: int| 0 <= t < r@.len() implies #[trigger] r.deep_view()[t]
                            == before.push(frg@)[t] by {
                            if t < r@.len() - 1 {
                                assert(r@[t] == rv_before[t]);
                                assert(before[t] == rv_before[t].deep_view());
                            } else {
                                assert(r@[t] == frg);
                            }
                        }
                        assert(r.deep_view() =~= before.push(frg@));
                    }
                },
                _ => {},
            }
            i = i + 1;
            proof {
                let prefix2 = all.subrange(0, i as int);
                assert(prefix2.drop_last() =~= prefix);
                assert(prefix2.last() == all[i - 1]);
                lemma_filter_map_step(prefix, prefix2, pred, f);
            }
        }
        proof {
            assert(all.subrange(0, all.len() as int) =~= all);
        }
        Ok(r)
    }

    /// Adds (or overwrites) a font replacement.  The original font name
    /// must be a valid value name.
    pub fn add_font_replacement(&mut self, original: &str, replacement: &str) -> (r: Result<
        (),
        PrefixError,
    >)
        requires
            old(self).wf(),
        ensures
            (r is Ok) == valid_value_name(original@),
            final(self).wf(),
            r matches Ok(_) ==> final(self).model() == with_string_value(
                old(self).model(),
                "Software\\Wine\\Fonts\\Replacements"@,
                original@,
                replacement@,
            ),
            r is Err ==> final(self).model() == old(self).model() && (r matches Err(e)
                && e matches PrefixError::Validation(_)),
            final(self).prefix_path == old(self).prefix_path,
    {
        validate_value_name(original)?;
        self.set_string_value("Software\\Wine\\Fonts\\Replacements", original, replacement)
    }

    /// Removes a font replacement by writing a tombstone for its slot.
    pub fn remove_font_replacement(&mut self, original: &str) -> (r: Result<(), PrefixError>)
        requires
            old(self).wf(),
        ensures
            (r is Ok) == valid_value_name(original@),
            final(self).wf(),
            r matches Ok(_) ==> final(self).model() == old(self).model().set_value_model(
                "Software\\Wine\\Fonts\\Replacements"@,
                slot_of(original@),
                RegistryValueV::Delete,
            ),
            r is Err ==> final(self).model() == old(self).model() && (r matches Err(e)
                && e matches PrefixError::Validation(_)),
            final(self).prefix_path == old(self).prefix_path,
    {
        validate_value_name(original)?;
        self.registry.delete_value("Software\\Wine\\Fonts\\Replacements", original)
    }

    /// The stored global DLL overrides, in storage order.
    pub fn get_dll_overrides(&self) -> (r: Result<Vec<DllOverride>, PrefixError>)
        requires
            self.wf(),
        ensures
            r matches Ok(v) && v.deep_view() == dll_overrides_model_at(
                self.model(),
                "Software\\Wine\\DllOverrides"@,
            ),
    {
        self.dll_overrides_at("Software\\Wine\\DllOverrides")
    }

    /// The DLL overrides stored under one key, in storage order.
    fn dll_overrides_at(&self, key: &str) -> (r: Result<Vec<DllOverride>, PrefixError>)
        requires
            self.wf(),
        ensures
            r matches Ok(v) && v.deep_view() == dll_overrides_model_at(self.model(), key@),
    {
        let values = self.registry.get_key_values(key)?;
        let ghost all = if self.model().has_key(key@) {
            crate::store::rendered_entries(self.model().key_at(key@))
        } else {
            Seq::<crate::store::NamedValueV>::empty()
        };
        let ghost pred = |nv: crate::store::NamedValueV| nv.value is Str
            && DllOverrideSetting::from_str_spec(nv.value->Str_0) is Some;
        let ghost f = |nv: crate::store::NamedValueV| crate::schema::DllOverrideV {
            dll: nv.name,
            setting: DllOverrideSetting::from_str_spec(nv.value->Str_0)->Some_0,
        };
        let mut r: Vec<DllOverride> = Vec::new();
        let mut i: usize = 0;
        proof {
            reveal(Seq::filter);
            assert(all.subrange(0, 0) =~= Seq::<crate::store::NamedValueV>::empty());
            assert(r.deep_view() =~= Seq::<crate::schema::DllOverrideV>::empty());
        }
        while i < values.len()
            invariant
                i <= values@.len(),
                values.deep_view() == all,
                all.len() == values@.len(),
                pred == (|nv: crate::store::NamedValueV| nv.value is Str
                    && DllOverrideSetting::from_str_spec(nv.value->Str_0) is Some),
                f == (|nv: crate::store::NamedValueV| crate::schema::DllOverrideV {
                    dll: nv.name,
                    setting: DllOverrideSetting::from_str_spec(nv.value->Str_0)->Some_0,
                }),
                r.deep_view() == all.subrange(0, i as int).filter(pred).map_values(f),
            decreases values@.len() - i,
        {
            let ghost prefix = all.subrange(0, i as int);
            let ghost before = r.deep_view();
            let entry = &values[i];
            proof {
                assert(entry@ == all[i as int]);
            }
            let ghost rv_before = r@;
            match &entry.value {
                RegistryValue::Str(s) => {
                    match DllOverrideSetting::from_string(s.as_str()) {
                        Some(setting) => {
                            let ov = DllOverride { dll: entry.name.clone(), setting };
                            let ghost ovg = ov;
                            proof {
                                assert(ovg@ == f(all[i as int]));
                            }
                            r.push(ov);
                            proof {
                                assert(before == Seq::new(
                                    rv_before.len(),
                                    |t: int| rv_before[t].deep_view(),
                                ));
                                assert(r@ == rv_before.push(ovg));
                                assert forall|t: int|
                                    0 <= t < r@.len() implies #[trigger] r.deep_view()[t]
                                    == before.push(ovg@)[t] by {
                                    if t < r@.len() - 1 {
                                        assert(r@[t] == rv_before[t]);
                                        assert(before[t] == rv_before[t].deep_view());
                                    } else {
                                        assert(r@[t] == ovg);
                                    }
                                }
                                assert(r.deep_view() =~= before.push(ovg@));
                            }
                        },
                        None => {},
                    }
                },
                _ => {},
            }
            i = i + 1;
            proof {
                let prefix2 = all.subrange(0, i as int);
                assert(prefix2.drop_last() =~= prefix);
                assert(prefix2.last() == all[i - 1]);
                lemma_filter_map_step(prefix, prefix2, pred, f);
            }
        }
        proof {
            assert(all.subrange(0, all.len() as int) =~= all);
        }
        Ok(r)
    }

    /// Adds (or overwrites) a global DLL override.  The DLL name must be a
    /// valid value name.
    pub fn add_dll_override(&mut self, dll: &str, setting: DllOverrideSetting) -> (r: Result<
        (),
        PrefixError,
    >)
        requires
            old(self).wf(),
        ensures
            (r is Ok) == valid_value_name(dll@),
            final(self).wf(),
            r matches Ok(_) ==> final(self).model() == with_string_value(
                old(self).model(),
                "Software\\Wine\\DllOverrides"@,
                dll@,
                setting.to_str_spec(),
            ),
            r is Err ==> final(self).model() == old(self).model() && (r matches Err(e)
                && e matches PrefixError::Validation(_)),
            final(self).prefix_path == old(self).prefix_path,
    {
        validate_value_name(dll)?;
        self.set_string_value("Software\\Wine\\DllOverrides", dll, setting.to_string())
    }

    /// Removes a global DLL override by writing a tombstone for its slot.
    pub fn remove_dll_override(&mut self, dll: &str) -> (r: Result<(), PrefixError>)
        requires
            old(self).wf(),
        ensures
            (r is Ok) == valid_value_name(dll@),
            final(self).wf(),
            r matches Ok(_) ==> final(self).model() == old(self).model().set_value_model(
                "Software\\Wine\\DllOverrides"@,
                slot_of(dll@),
                RegistryValueV::Delete,
            ),
            r is Err ==> final(self).model() == old(self).model() && (r matches Err(e)
                && e matches PrefixError::Validation(_)),
            final(self).prefix_path == old(self).prefix_path,
    {
        validate_value_name(dll)?;
        self.registry.delete_value("Software\\Wine\\DllOverrides", dll)
    }

    /// The stored desktop settings.  These always read back: absent values
    /// fall back to no active desktop, no configured desktops, and a shown
    /// system tray.
    pub fn get_desktop_settings(&self) -> (r: Result<Option<DesktopSettings>, PrefixError>)
        requires
            self.wf(),
        ensures
            r matches Ok(v) && v matches Some(ds) && ds@ == desktop_settings_model(self.model()),
    {
        let desktop = self.get_string_value("Software\\Wine\\Explorer", "Desktop")?;
        let systray = self.get_dword_value("Software\\Wine\\Explorer", "ShowSystray")?;
        let show_systray = match systray {
            Some(d) => d != 0,
            None => true,
        };
        let values = self.registry.get_key_values("Software\\Wine\\Explorer\\Desktops")?;
        let ghost all = if self.model().has_key("Software\\Wine\\Explorer\\Desktops"@) {
            crate::store::rendered_entries(
                self.model().key_at("Software\\Wine\\Explorer\\Desktops"@),
            )
        } else {
            Seq::<crate::store::NamedValueV>::empty()
        };
        let ghost pred = |nv: crate::store::NamedValueV| nv.value is Str
            && DesktopSize::from_str_spec(nv.value->Str_0) is Some;
        let ghost f = |nv: crate::store::NamedValueV| crate::schema::DesktopEntryV {
            name: nv.name,
            size: DesktopSize::from_str_spec(nv.value->Str_0)->Some_0,
        };
        let mut desktops: Vec<DesktopEntry> = Vec::new();
        let mut i: usize = 0;
        proof {
            reveal(Seq::filter);
            assert(all.subrange(0, 0) =~= Seq::<crate::store::NamedValueV>::empty());
            assert(desktops.deep_view() =~= Seq::<crate::schema::DesktopEntryV>::empty());
        }
        while i < values.len()
            invariant
                i <= values@.len(),
                values.deep_view() == all,
                all.len() == values@.len(),
                pred == (|nv: crate::store::NamedValueV| nv.value is Str
                    && DesktopSize::from_str_spec(nv.value->Str_0) is Some),
                f == (|nv: crate::store::NamedValueV| crate::schema::DesktopEntryV {
                    name: nv.name,
                    size: DesktopSize::from_str_spec(nv.value->Str_0)->Some_0,
                }),
                desktops.deep_view() == all.subrange(0, i as int).filter(pred).map_values(f),
            decreases values@.len() - i,
        {
            let ghost prefix = all.subrange(0, i as int);
            let ghost before = desktops.deep_view();
            let entry = &values[i];
            proof {
                assert(entry@ == all[i as int]);
            }
            let ghost rv_before = desktops@;
            match &entry.value {
                RegistryValue::Str(s) => {
                    match DesktopSize::from_string(s.as_str()) {
                        Some(size) => {
                            let de = DesktopEntry { name: entry.name.clone(), size };
                            let ghost deg = de;
                            proof {
                                assert(deg@ == f(all[i as int]));
                            }
                            desktops.push(de);
                            proof {
                                assert(before == Seq::new(
                                    rv_before.len(),
                                    |t: int| rv_before[t].deep_view(),
                                ));
                                assert(desktops@ == rv_before.push(deg));
                                assert forall|t: int|
                                    0 <= t < desktops@.len() implies #[trigger] desktops.deep_view()[t]
                                    == before.push(deg@)[t] by {
                                    if t < desktops@.len() - 1 {
                                        assert(desktops@[t] == rv_before[t]);
                                        assert(before[t] == rv_before[t].deep_view());
                                    } else {
                                        assert(desktops@[t] == deg);
                                    }
                                }
                                assert(desktops.deep_view() =~= before.push(deg@));
                            }
                        },
                        None => {},
                    }
                },
                _ => {},
            }
            i = i + 1;
            proof {
                let prefix2 = all.subrange(0, i as int);
                assert(prefix2.drop_last() =~= prefix);
                assert(prefix2.last() == all[i - 1]);
                lemma_filter_map_step(prefix, prefix2, pred, f);
            }
        }
        proof {
            assert(all.subrange(0, all.len() as int) =~= all);
        }
        let ds = DesktopSettings { desktop, desktops, show_systray };
        proof {
            assert(ds@ =~= desktop_settings_model(self.model()));
        }
        Ok(Some(ds))
    }

    /// Writes desktop settings: the active desktop name (when configured),
    /// the system tray flag, then every desktop resolution.  Every desktop
    /// name is validated before anything is written.
    pub fn set_desktop_settings(&mut self, settings: &DesktopSettings) -> (r: Result<
        (),
        PrefixError,
    >)
        requires
            old(self).wf(),
        ensures
            (r is Ok) == (forall|i: int|
                0 <= i < settings.desktops@.len() ==> valid_value_name(
                    (#[trigger] settings.desktops@[i])@.name,
                )),
            final(self).wf(),
            r matches Ok(_) ==> final(self).model() == desktop_apply(old(self).model(), settings@),
            r is Err ==> final(self).model() == old(self).model() && (r matches Err(e)
                && e matches PrefixError::Validation(_)),
            final(self).prefix_path == old(self).prefix_path,
    {
        // Validate every desktop name before any write happens.
        let mut v: usize = 0;
        while v < settings.desktops.len()
            invariant
                *self == *old(self),
                old(self).wf(),
                v <= settings.desktops@.len(),
                forall|i: int|
                    0 <= i < v ==> valid_value_name((#[trigger] settings.desktops@[i])@.name),
            decreases settings.desktops@.len() - v,
        {
            match validate_value_name(settings.desktops[v].name.as_str()) {
                Ok(_) => {},
                Err(e) => {
                    return Err(e);
                },
            }
            v = v + 1;
        }
        if let Some(d) = &settings.desktop {
            self.set_string_value("Software\\Wine\\Explorer", "Desktop", d.as_str())?;
        }
        proof {
            assert(self.model() == (match settings@.desktop {
                Some(d) => with_string_value(
                    old(self).model(),
                    "Software\\Wine\\Explorer"@,
                    "Desktop"@,
                    d,
                ),
                None => old(self).model(),
            }));
        }
        let systray: u32 = if settings.show_systray {
            1
        } else {
            0
        };
        self.set_dword_value("Software\\Wine\\Explorer", "ShowSystray", systray)?;
        let ghost start = self.model();
        let ghost es = settings.desktops.deep_view();
        let mut i: usize = 0;
        proof {
            assert(es.len() == settings.desktops@.len());
            assert(es.skip(0) =~= es);
        }
        while i < settings.desktops.len()
            invariant
                i <= settings.desktops@.len(),
                es == settings.desktops.deep_view(),
                es.len() == settings.desktops@.len(),
                self.wf(),
                self.prefix_path == old(self).prefix_path,
                apply_desktop_entries(self.model(), es.skip(i as int)) == apply_desktop_entries(
                    start,
                    es,
                ),
            decreases settings.desktops@.len() - i,
        {
            let entry = &settings.desktops[i];
            proof {
                assert(entry@ == es[i as int]);
            }
            let size_str = entry.size.to_string();
            let ghost cur = self.model();
            self.set_string_value(
                "Software\\Wine\\Explorer\\Desktops",
                entry.name.as_str(),
                size_str.as_str(),
            )?;
            i = i + 1;
            proof {
                let rest = es.skip(i - 1);
                assert(rest[0] == es[i - 1]);
                assert(rest.skip(1) =~= es.skip(i as int));
                assert(apply_desktop_entries(cur, rest) == apply_desktop_entries(
                    self.model(),
                    es.skip(i as int),
                ));
            }
        }
        proof {
            assert(es.skip(es.len() as int) =~= Seq::<crate::schema::DesktopEntryV>::empty());
            assert(apply_desktop_entries(self.model(), es.skip(es.len() as int)) == self.model());
            assert(self.model() == apply_desktop_entries(start, es));
            assert(settings@.desktops == es);
            assert(self.model() == desktop_apply(old(self).model(), settings@));
        }
        Ok(())
    }

    /// The stored virtual desktop, if the active desktop name has a
    /// resolution on record.
    pub fn get_virtual_desktop(&self) -> (r: Result<Option<VirtualDesktopSettings>, PrefixError>)
        requires
            self.wf(),
        ensures
            r matches Ok(v) && v == virtual_desktop_model(self.model()),
    {
        let settings = self.get_desktop_settings()?;
        match settings {
            Some(ds) => {
                match &ds.desktop {
                    Some(name) => {
                        let ghost es = ds.desktops.deep_view();
                        let mut i: usize = 0;
                        proof {
                            assert(es.len() == ds.desktops@.len());
                        }
                        while i < ds.desktops.len()
                            invariant
                                self.wf(),
                                ds@ == desktop_settings_model(self.model()),
                                ds@.desktop == Some(name@),
                                i <= ds.desktops@.len(),
                                es == ds.desktops.deep_view(),
                                es.len() == ds.desktops@.len(),
                                forall|j: int| 0 <= j < i ==> (#[trigger] es[j]).name != name@,
                            decreases ds.desktops@.len() - i,
                        {
                            let entry = &ds.desktops[i];
                            proof {
                                assert(entry@ == es[i as int]);
                            }
                            if strutil::str_eq(entry.name.as_str(), name.as_str()) {
                                proof {
                                    assert(entry_first_at(es, name@, i as int));
                                    let c = choose|t: int| entry_first_at(es, name@, t);
                                    if c < i as int {
                                        assert(es[c].name != name@);
                                    } else if c > i as int {
                                        assert(es[i as int].name != name@);
                                    }
                                }
                                return Ok(
                                    Some(
                                        VirtualDesktopSettings {
                                            enabled: true,
                                            width: entry.size.width,
                                            height: entry.size.height,
                                        },
                                    ),
                                );
                            }
                            i = i + 1;
                        }
                        proof {
                            assert forall|t: int| !entry_first_at(es, name@, t) by {
                                if 0 <= t < es.len() {
                                    assert(es[t].name != name@);
                                }
                            }
                        }
                        Ok(None)
                    },
                    None => Ok(None),
                }
            },
            None => Ok(None),
        }
    }

    /// Enables the virtual desktop by installing a desktop named `Default`
    /// at the given resolution (hiding the system tray), or disables it by
    /// writing a tombstone for the active desktop name.
    pub fn set_virtual_desktop(&mut self, settings: &VirtualDesktopSettings) -> (r: Result<
        (),
        PrefixError,
    >)
        requires
            old(self).wf(),
        ensures
            r is Ok,
            final(self).wf(),
            settings.enabled ==> final(self).model() == desktop_apply(
                old(self).model(),
                crate::schema::DesktopSettingsV {
                    desktop: Some("Default"@),
                    desktops: seq![
                        crate::schema::DesktopEntryV {
                            name: "Default"@,
                            size: DesktopSize { width: settings.width, height: settings.height },
                        },
                    ],
                    show_systray: false,
                },
            ),
            !settings.enabled ==> final(self).model() == old(self).model().set_value_model(
                "Software\\Wine\\Explorer"@,
                slot_of("Desktop"@),
                RegistryValueV::Delete,
            ),
            final(self).prefix_path == old(self).prefix_path,
    {
        if settings.enabled {
            let mut desktops: Vec<DesktopEntry> = Vec::new();
            desktops.push(
                DesktopEntry {
                    name: String::from_str("Default"),
                    size: DesktopSize { width: settings.width, height: settings.height },
                },
            );
            let ds = DesktopSettings {
                desktop: Some(String::from_str("Default")),
                desktops,
                show_systray: false,
            };
            proof {
                reveal_strlit("Default");
                assert(valid_value_name("Default"@)) by {
                    assert forall|i: int| 0 <= i < "Default"@.len() implies !invalid_name_char(
                        #[trigger] "Default"@[i],
                    ) by {
                        if i == 0 {
                            assert("Default"@[0] == 'D');
                        } else if i == 1 {
                            assert("Default"@[1] == 'e');
                        } else if i == 2 {
                            assert("Default"@[2] == 'f');
                        } else if i == 3 {
                            assert("Default"@[3] == 'a');
                        } else if i == 4 {
                            assert("Default"@[4] == 'u');
                        } else if i == 5 {
                            assert("Default"@[5] == 'l');
                        } else {
                            assert("Default"@[6] == 't');
                        }
                    }
                }
                assert(ds@.desktops =~= seq![
                    crate::schema::DesktopEntryV {
                        name: "Default"@,
                        size: DesktopSize { width: settings.width, height: settings.height },
                    },
                ]);
            }
            self.set_desktop_settings(&ds)
        } else {
            self.registry.delete_value("Software\\Wine\\Explorer", "Desktop")
        }
    }

    /// The stored settings of one application, if it has a key.
    pub fn get_app_settings(&self, app_name: &str) -> (r: Result<Option<AppSettings>, PrefixError>)
        requires
            self.wf(),
        ensures
            r matches Ok(v) && (match v {
                Some(a) => app_settings_model(self.model(), app_name@) == Some(a@),
                None => app_settings_model(self.model(), app_name@) is None,
            }),
    {
        let base = String::from_str("Software\\Wine\\AppDefaults\\").concat(app_name);
        if !self.registry.key_exists(base.as_str())? {
            return Ok(None);
        }
        let dll_key = base.clone().concat("\\DllOverrides");
        let d3d_key = base.clone().concat("\\Direct3D");
        let dll_overrides = self.dll_overrides_at(dll_key.as_str())?;
        let renderer_str = self.get_string_value(d3d_key.as_str(), "renderer")?;
        let d3d_renderer = match &renderer_str {
            Some(s) => D3DRenderer::from_string(s.as_str()),
            None => None,
        };
        let mode_str = self.get_string_value(d3d_key.as_str(), "OffscreenRenderingMode")?;
        let offscreen_rendering_mode = match &mode_str {
            Some(s) => OffscreenRenderingMode::from_string(s.as_str()),
            None => None,
        };
        let a = AppSettings {
            name: String::from_str(app_name),
            dll_overrides,
            d3d_renderer,
            offscreen_rendering_mode,
            desktop_settings: None,
            custom_settings: Vec::new(),
        };
        proof {
            assert(a.custom_settings.deep_view() =~= Seq::<crate::schema::CustomSettingV>::empty());
            assert(a@ =~= app_settings_model(self.model(), app_name@)->Some_0);
        }
        Ok(Some(a))
    }

    /// Writes the settings of one application: its DLL overrides, renderer
    /// and offscreen rendering mode when configured, and custom settings.
    /// Every DLL name and custom setting key is validated before anything
    /// is written.
    pub fn set_app_settings(&mut self, app_name: &str, settings: &AppSettings) -> (r: Result<
        (),
        PrefixError,
    >)
        requires
            old(self).wf(),
        ensures
            (r is Ok) == ((forall|i: int|
                0 <= i < settings.dll_overrides@.len() ==> valid_value_name(
                    (#[trigger] settings.dll_overrides@[i])@.dll,
                )) && (forall|i: int|
                0 <= i < settings.custom_settings@.len() ==> valid_value_name(
                    (#[trigger] settings.custom_settings@[i])@.key,
                ))),
            final(self).wf(),
            r matches Ok(_) ==> final(self).model() == app_apply(
                old(self).model(),
                app_name@,
                settings@,
            ),
            r is Err ==> final(self).model() == old(self).model() && (r matches Err(e)
                && e matches PrefixError::Validation(_)),
            final(self).prefix_path == old(self).prefix_path,
    {
        // Validate every name before any write happens.
        let mut v: usize = 0;
        while v < settings.dll_overrides.len()
            invariant
                *self == *old(self),
                old(self).wf(),
                v <= settings.dll_overrides@.len(),
                forall|i: int|
                    0 <= i < v ==> valid_value_name((#[trigger] settings.dll_overrides@[i])@.dll),
            decreases settings.dll_overrides@.len() - v,
        {
            match validate_value_name(settings.dll_overrides[v].dll.as_str()) {
                Ok(_) => {},
                Err(e) => {
                    return Err(e);
                },
            }
            v = v + 1;
        }
        let mut w: usize = 0;
        while w < settings.custom_settings.len()
            invariant
                *self == *old(self),
                old(self).wf(),
                w <= settings.custom_settings@.len(),
                forall|i: int|
                    0 <= i < w ==> valid_value_name((#[trigger] settings.custom_settings@[i])@.key),
            decreases settings.custom_settings@.len() - w,
        {
            match validate_value_name(settings.custom_settings[w].key.as_str()) {
                Ok(_) => {},
                Err(e) => {
                    return Err(e);
                },
            }
            w = w + 1;
        }
        let base = String::from_str("Software\\Wine\\AppDefaults\\").concat(app_name);
        let dll_key = base.clone().concat("\\DllOverrides");
        let d3d_key = base.clone().concat("\\Direct3D");
        let ghost start = self.model();
        let ghost ovs = settings.dll_overrides.deep_view();
        let mut i: usize = 0;
        proof {
            assert(ovs.len() == settings.dll_overrides@.len());
            assert(ovs.skip(0) =~= ovs);
        }
        while i < settings.dll_overrides.len()
            invariant
                i <= settings.dll_overrides@.len(),
                ovs == settings.dll_overrides.deep_view(),
                ovs.len() == settings.dll_overrides@.len(),
                dll_key@ == app_key_of(app_name@) + "\\DllOverrides"@,
                self.wf(),
                self.prefix_path == old(self).prefix_path,
                apply_dll_overrides(self.model(), dll_key@, ovs.skip(i as int))
                    == apply_dll_overrides(start, dll_key@, ovs),
            decreases settings.dll_overrides@.len() - i,
        {
            let entry = &settings.dll_overrides[i];
            proof {
                assert(entry@ == ovs[i as int]);
            }
            let ghost cur = self.model();
            self.set_string_value(dll_key.as_str(), entry.dll.as_str(), entry.setting.to_string())?;
            i = i + 1;
            proof {
                let rest = ovs.skip(i - 1);
                assert(rest[0] == ovs[i - 1]);
                assert(rest.skip(1) =~= ovs.skip(i as int));
                assert(apply_dll_overrides(cur, dll_key@, rest) == apply_dll_overrides(
                    self.model(),
                    dll_key@,
                    ovs.skip(i as int),
                ));
            }
        }
        proof {
            assert(ovs.skip(ovs.len() as int) =~= Seq::<crate::schema::DllOverrideV>::empty());
            assert(apply_dll_overrides(self.model(), dll_key@, ovs.skip(ovs.len() as int))
                == self.model());
            assert(self.model() == apply_dll_overrides(
                old(self).model(),
                app_key_of(app_name@) + "\\DllOverrides"@,
                settings@.dll_overrides,
            ));
        }
        if let Some(renderer) = &settings.d3d_renderer {
            self.set_string_value(d3d_key.as_str(), "renderer", renderer.to_string())?;
        }
        if let Some(mode) = &settings.offscreen_rendering_mode {
            self.set_string_value(d3d_key.as_str(), "OffscreenRenderingMode", mode.to_string())?;
        }
        let ghost mid = self.model();
        let ghost cs = settings.custom_settings.deep_view();
        let mut j: usize = 0;
        proof {
            assert(cs.len() == settings.custom_settings@.len());
            assert(cs.skip(0) =~= cs);
        }
        while j < settings.custom_settings.len()
            invariant
                j <= settings.custom_settings@.len(),
                cs == settings.custom_settings.deep_view(),
                cs.len() == settings.custom_settings@.len(),
                base@ == app_key_of(app_name@),
                self.wf(),
                self.prefix_path == old(self).prefix_path,
                apply_custom_settings(self.model(), base@, cs.skip(j as int))
                    == apply_custom_settings(mid, base@, cs),
            decreases settings.custom_settings@.len() - j,
        {
            let entry = &settings.custom_settings[j];
            proof {
                assert(entry@ == cs[j as int]);
            }
            let ghost cur = self.model();
            self.set_string_value(base.as_str(), entry.key.as_str(), entry.value.as_str())?;
            j = j + 1;
            proof {
                let rest = cs.skip(j - 1);
                assert(rest[0] == cs[j - 1]);
                assert(rest.skip(1) =~= cs.skip(j as int));
                assert(apply_custom_settings(cur, base@, rest) == apply_custom_settings(
                    self.model(),
                    base@,
                    cs.skip(j as int),
                ));
            }
        }
        proof {
            assert(cs.skip(cs.len() as int) =~= Seq::<crate::schema::CustomSettingV>::empty());
            assert(apply_custom_settings(self.model(), base@, cs.skip(cs.len() as int))
                == self.model());
            assert(self.model() == apply_custom_settings(mid, base@, settings@.custom_settings));
            assert(self.model() == app_apply(old(self).model(), app_name@, settings@));
        }
        Ok(())
    }

    /// Deletes the whole key of one application.
    pub fn remove_app_settings(&mut self, app_name: &str) -> (r: Result<(), PrefixError>)
        requires
            old(self).wf(),
        ensures
            r is Ok,
            final(self).wf(),
            final(self).model() == old(self).model().delete_key_model(app_key_of(app_name@)),
            final(self).prefix_path == old(self).prefix_path,
    {
        let base = String::from_str("Software\\Wine\\AppDefaults\\").concat(app_name);
        self.registry.delete_key(base.as_str())
    }

    /// Every key path in the registry, in storage order.
    pub fn get_all_keys(&self) -> (r: Result<Vec<String>, PrefixError>)
        requires
            self.wf(),
        ensures
            r matches Ok(v) && v.deep_view() == self.model().keys.map_values(
                |k: crate::store::KeyV| k.path,
            ),
    {
        let mut r: Vec<String> = Vec::new();
        let mut i: usize = 0;
        proof {
            assert(r.deep_view() =~= self.model().keys.map_values(
                |k: crate::store::KeyV| k.path,
            ).subrange(0, 0));
        }
        while i < self.registry.registry.keys.len()
            invariant
                i <= self.registry.registry.keys@.len(),
                self.model().keys.len() == self.registry.registry.keys@.len(),
                r.deep_view() == self.model().keys.map_values(
                    |k: crate::store::KeyV| k.path,
                ).subrange(0, i as int),
            decreases self.registry.registry.keys@.len() - i,
        {
            let ghost before = r@;
            let ghost before_deep = r.deep_view();
            let p = self.registry.registry.keys[i].path.clone();
            let ghost pg = p;
            r.push(p);
            i = i + 1;
            proof {
                let paths = self.model().keys.map_values(|k: crate::store::KeyV| k.path);
                assert(paths.len() == self.model().keys.len());
                assert(self.model().keys[i - 1] == self.registry.registry.keys@[i - 1]@);
                assert(paths[i - 1] == self.model().keys[i - 1].path);
                assert(pg@ == paths[i - 1]);
                assert(before_deep == paths.subrange(0, i - 1));
                assert(before_deep == Seq::new(before.len(), |t: int| before[t].deep_view()));
                assert(r@ == before.push(pg));
                assert forall|t: int| 0 <= t < r@.len() implies #[trigger] r.deep_view()[t]
                    == before_deep.push(pg@)[t] by {
                    if t < r@.len() - 1 {
                        assert(r@[t] == before[t]);
                        assert(before_deep[t] == before[t].deep_view());
                    } else {
                        assert(r@[t] == pg);
                    }
                }
                assert(r.deep_view() =~= before_deep.push(pg@));
                assert(before_deep.push(pg@) =~= paths.subrange(0, i as int));
            }
        }
        proof {
            let paths = self.model().keys.map_values(|k: crate::store::KeyV| k.path);
            assert(paths.subrange(0, paths.len() as int) =~= paths);
        }
        Ok(r)
    }

    /// Collects every violation in the registry: bad key paths, and bad
    /// value names under well-formed key paths.
    pub fn validate_registry(&self) -> (r: Result<Vec<ValidationError>, PrefixError>)
        requires
            self.wf(),
        ensures
            r matches Ok(v) && v.deep_view() == validation_model(self.model().keys),
    {
        let mut r: Vec<ValidationError> = Vec::new();
        let mut i: usize = 0;
        proof {
            assert(self.model().keys.subrange(0, 0) =~= Seq::<crate::store::KeyV>::empty());
            assert(r.deep_view() =~= Seq::<crate::schema::ValidationErrorV>::empty());
        }
        while i < self.registry.registry.keys.len()
            invariant
                self.wf(),
                i <= self.registry.registry.keys@.len(),
                self.model().keys.len() == self.registry.registry.keys@.len(),
                r.deep_view() == validation_model(self.model().keys.subrange(0, i as int)),
            decreases self.registry.registry.keys@.len() - i,
        {
            let ghost outer_before = r.deep_view();
            let key = &self.registry.registry.keys[i];
            let ghost kv = self.model().keys[i as int];
            proof {
                assert(key@ == kv);
            }
            match validate_key_path(key.path.as_str()) {
                Err(_) => {
                    let e = ValidationError {
                        key_path: key.path.clone(),
                        value_name: None,
                        error_message: String::from_str(
                            "key path must be nonempty and start with 'Software'",
                        ),
                    };
                    let ghost eg = e;
                    let ghost before = r@;
                    let ghost before_deep = r.deep_view();
                    r.push(e);
                    proof {
                        assert(eg@ == key_validation_errs(kv)[0]);
                        assert(before_deep == Seq::new(
                            before.len(),
                            |t: int| before[t].deep_view(),
                        ));
                        assert(r@ == before.push(eg));
                        assert forall|t: int| 0 <= t < r@.len() implies #[trigger] r.deep_view()[t]
                            == before_deep.push(eg@)[t] by {
                            if t < r@.len() - 1 {
                                assert(r@[t] == before[t]);
                                assert(before_deep[t] == before[t].deep_view());
                            } else {
                                assert(r@[t] == eg);
                            }
                        }
                        assert(r.deep_view() =~= before_deep.push(eg@));
                        assert(key_validation_errs(kv) =~= seq![eg@]);
                        assert(r.deep_view() =~= outer_before + key_validation_errs(kv));
                    }
                },
                Ok(_) => {
                    let ghost all = crate::store::rendered_entries(kv);
                    let ghost pred = |nv: crate::store::NamedValueV| !valid_value_name(nv.name);
                    let ghost f = |nv: crate::store::NamedValueV| crate::schema::ValidationErrorV {
                        key_path: kv.path,
                        value_name: Some(nv.name),
                        error_message: name_err_msg(nv.name),
                    };
                    let mut j: usize = 0;
                    proof {
                        reveal(Seq::filter);
                        assert(all.subrange(0, 0) =~= Seq::<crate::store::NamedValueV>::empty());
                        assert(r.deep_view() =~= outer_before + all.subrange(0, 0).filter(
                            pred,
                        ).map_values(f));
                    }
                    while j < key.values.len()
                        invariant
                            j <= key.values@.len(),
                            key@ == kv,
                            all == crate::store::rendered_entries(kv),
                            all.len() == key.values@.len(),
                            pred == (|nv: crate::store::NamedValueV| !valid_value_name(nv.name)),
                            f == (|nv: crate::store::NamedValueV| crate::schema::ValidationErrorV {
                                key_path: kv.path,
                                value_name: Some(nv.name),
                                error_message: name_err_msg(nv.name),
                            }),
                            r.deep_view() == outer_before + all.subrange(0, j as int).filter(
                                pred,
                            ).map_values(f),
                        decreases key.values@.len() - j,
                    {
                        let ghost prefix = all.subrange(0, j as int);
                        let entry = &key.values[j];
                        let name = match &entry.name {
                            crate::model::ValueName::Default => String::from_str("(default)"),
                            crate::model::ValueName::Named(s) => s.clone(),
                        };
                        proof {
                            assert(name@ == all[j as int].name);
                        }
                        match validate_value_name(name.as_str()) {
                            Err(_) => {
                                let msg = if name.as_str().is_empty() {
                                    String::from_str("value name must be nonempty")
                                } else {
                                    String::from_str("value name contains an invalid character")
                                };
                                let e = ValidationError {
                                    key_path: key.path.clone(),
                                    value_name: Some(name),
                                    error_message: msg,
                                };
                                let ghost eg = e;
                                let ghost before = r@;
                                let ghost before_deep = r.deep_view();
                                r.push(e);
                                proof {
                                    assert(eg@ == f(all[j as int]));
                                    assert(before_deep == Seq::new(
                                        before.len(),
                                        |t: int| before[t].deep_view(),
                                    ));
                                    assert(r@ == before.push(eg));
                                    assert forall|t: int|
                                        0 <= t < r@.len() implies #[trigger] r.deep_view()[t]
                                        == before_deep.push(eg@)[t] by {
                                        if t < r@.len() - 1 {
                                            assert(r@[t] == before[t]);
                                            assert(before_deep[t] == before[t].deep_view());
                                        } else {
                                            assert(r@[t] == eg);
                                        }
                                    }
                                    assert(r.deep_view() =~= before_deep.push(eg@));
                                }
                            },
                            Ok(_) => {},
                        }
                        j = j + 1;
                        proof {
                            let prefix2 = all.subrange(0, j as int);
                            assert(prefix2.drop_last() =~= prefix);
                            assert(prefix2.last() == all[j - 1]);
                            lemma_filter_map_step(prefix, prefix2, pred, f);
                            if pred(all[j - 1]) {
                                assert(r.deep_view() =~= outer_before + prefix2.filter(
                                    pred,
                                ).map_values(f));
                            } else {
                                assert(r.deep_view() =~= outer_before + prefix2.filter(
                                    pred,
                                ).map_values(f));
                            }
                        }
                    }
                    proof {
                        assert(all.subrange(0, all.len() as int) =~= all);
                        assert(r.deep_view() == outer_before + key_validation_errs(kv));
                    }
                },
            }
            i = i + 1;
            proof {
                let prefix2 = self.model().keys.subrange(0, i as int);
                assert(prefix2.drop_last() =~= self.model().keys.subrange(0, i - 1));
                assert(prefix2.last() == kv);
                assert(validation_model(prefix2) == validation_model(prefix2.drop_last())
                    + key_validation_errs(kv));
            }
        }
        proof {
            assert(self.model().keys.subrange(0, self.model().keys.len() as int)
                =~= self.model().keys);
        }
        Ok(r)
    }
}

/// One filtering step: extending the scanned sequence by one element
/// either appends its mapped image (when the element passes the filter) or
/// leaves the filtered, mapped result unchanged.
proof fn lemma_filter_map_step<A, B>(
    prefix: Seq<A>,
    prefix2: Seq<A>,
    pred: spec_fn(A) -> bool,
    f: spec_fn(A) -> B,
)
    requires
        prefix2.len() > 0,
        prefix2.drop_last() == prefix,
    ensures
        pred(prefix2.last()) ==> prefix2.filter(pred).map_values(f) == prefix.filter(
            pred,
        ).map_values(f).push(f(prefix2.last())),
        !pred(prefix2.last()) ==> prefix2.filter(pred).map_values(f) == prefix.filter(
            pred,
        ).map_values(f),
{
    reveal(Seq::filter);
    if pred(prefix2.last()) {
        assert(prefix2.filter(pred) == prefix.filter(pred).push(prefix2.last()));
        assert(prefix2.filter(pred).map_values(f) =~= prefix.filter(pred).map_values(f).push(
            f(prefix2.last()),
        ));
    } else {
        assert(prefix2.filter(pred) == prefix.filter(pred));
    }
}


/// Decodes an optional flag string as "enabled unless it is `\"N\"`".
fn decode_not_n_exec(s: &Option<String>) -> (r: Option<bool>)
    ensures
        r == decode_not_n(match s {
            Some(t) => Some(t@),
            None => None::<Seq<char>>,
        }),
{
    match s {
        Some(t) => Some(!strutil::str_eq(t.as_str(), "N")),
        None => None,
    }
}

/// Decodes an optional flag string as "enabled exactly when it equals the
/// expected letter": uppercase `"Y"` when `upper` is set, lowercase `"y"`
/// otherwise.
fn decode_is_y_exec(s: &Option<String>, upper: bool) -> (r: Option<bool>)
    ensures
        upper ==> r == decode_is_upper_y(match s {
            Some(t) => Some(t@),
            None => None::<Seq<char>>,
        }),
        !upper ==> r == decode_is_lower_y(match s {
            Some(t) => Some(t@),
            None => None::<Seq<char>>,
        }),
{
    match s {
        Some(t) => {
            if upper {
                Some(strutil::str_eq(t.as_str(), "Y"))
            } else {
                Some(strutil::str_eq(t.as_str(), "y"))
            }
        },
        None => None,
    }
}

} // verus!

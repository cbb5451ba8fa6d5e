use winereg::editor::RegistryEditor;
use winereg::model::RegistryValue;
use winereg::schema::{
    DesktopEntry, DesktopSettings, DesktopSize, DllOverrideSetting, DpiSettings,
    MacDriverSettings, ShaderModelSettings, VirtualDesktopSettings, WindowsFloatWhenInactive,
    X11DriverSettings,
};

#[test]
fn test_registry_editor_basic() {
    let mut editor = RegistryEditor::new();

    editor.set_windows_version("win10").unwrap();
    let version = editor.get_windows_version().unwrap();
    assert_eq!(version, Some("win10".to_string()));

    editor.set_d3d_renderer("vulkan").unwrap();
    let renderer = editor.get_d3d_renderer().unwrap();
    assert_eq!(renderer, Some("vulkan".to_string()));

    editor.set_d3d_csmt(true).unwrap();
    let csmt = editor.get_d3d_csmt().unwrap();
    assert_eq!(csmt, Some(1));

    editor.set_d3d_csmt(false).unwrap();
    let csmt = editor.get_d3d_csmt().unwrap();
    assert_eq!(csmt, Some(0));
}

#[test]
fn test_mac_driver_settings() {
    let mut editor = RegistryEditor::new();

    let mut mac_settings = MacDriverSettings::new();
    mac_settings.allow_vertical_sync = Some(true);
    mac_settings.capture_displays_for_fullscreen = Some(false);
    mac_settings.use_precise_scrolling = Some(true);
    mac_settings.windows_float_when_inactive = Some(WindowsFloatWhenInactive::NonFullscreen);

    editor.set_mac_driver_settings(&mac_settings).unwrap();

    let retrieved_settings = editor.get_mac_driver_settings().unwrap();
    assert!(retrieved_settings.is_some());

    let settings = retrieved_settings.unwrap();
    assert_eq!(settings.allow_vertical_sync, Some(true));
    assert_eq!(settings.capture_displays_for_fullscreen, Some(false));
    assert_eq!(settings.use_precise_scrolling, Some(true));
    assert_eq!(
        settings.windows_float_when_inactive,
        Some(WindowsFloatWhenInactive::NonFullscreen)
    );

    let mut editor2 = RegistryEditor::new();

    let mut individual_settings = MacDriverSettings::new();
    individual_settings.allow_vertical_sync = Some(false);

    editor2.set_mac_driver_settings(&individual_settings).unwrap();

    let retrieved_individual = editor2.get_mac_driver_settings().unwrap();
    assert!(retrieved_individual.is_some());

    let individual = retrieved_individual.unwrap();
    assert_eq!(individual.allow_vertical_sync, Some(false));
    assert_eq!(individual.capture_displays_for_fullscreen, None);
    assert_eq!(individual.use_precise_scrolling, None);
    assert_eq!(individual.windows_float_when_inactive, None);
}

#[test]
fn test_font_replacements() {
    let mut editor = RegistryEditor::new();

    editor
        .add_font_replacement("MS UI Gothic", "ヒラギノ丸ゴ ProN W4")
        .unwrap();
    editor
        .add_font_replacement("ＭＳ ゴシック", "ヒラギノ丸ゴ ProN W4")
        .unwrap();

    let replacements = editor.get_font_replacements().unwrap();
    assert_eq!(replacements.len(), 2);

    let ms_ui_gothic = replacements.iter().find(|r| r.original == "MS UI Gothic");
    let ms_gothic = replacements.iter().find(|r| r.original == "ＭＳ ゴシック");

    assert!(ms_ui_gothic.is_some());
    assert!(ms_gothic.is_some());
    assert_eq!(ms_ui_gothic.unwrap().replacement, "ヒラギノ丸ゴ ProN W4");
    assert_eq!(ms_gothic.unwrap().replacement, "ヒラギノ丸ゴ ProN W4");

    editor.remove_font_replacement("MS UI Gothic").unwrap();
    let replacements_after_remove = editor.get_font_replacements().unwrap();
    assert_eq!(replacements_after_remove.len(), 1);
    assert!(replacements_after_remove
        .iter()
        .any(|r| r.original == "ＭＳ ゴシック"));
}

#[test]
fn idempotent_windows_version_setter() {
    // Setting the same version twice leaves the stored version and the key
    // count unchanged.
    let mut editor = RegistryEditor::new();
    editor.set_windows_version("win10").unwrap();
    let keys_once = editor.get_all_keys().unwrap();
    editor.set_windows_version("win10").unwrap();
    assert_eq!(editor.get_windows_version().unwrap(), Some("win10".to_string()));
    let keys_twice = editor.get_all_keys().unwrap();
    assert_eq!(keys_once, keys_twice);
    assert_eq!(keys_twice.len(), 1);
    assert_eq!(keys_twice[0], "Software\\Wine");
}

#[test]
fn rejected_windows_version_leaves_store_unchanged() {
    let mut editor = RegistryEditor::new();
    assert!(editor.set_windows_version("windowsxp").is_err());
    assert_eq!(editor.get_windows_version().unwrap(), None);
    assert_eq!(editor.get_all_keys().unwrap().len(), 0);
}

#[test]
fn video_memory_size_validation() {
    let mut editor = RegistryEditor::new();
    editor.set_video_memory_size(512).unwrap();
    assert_eq!(editor.get_video_memory_size().unwrap(), Some(512));

    assert!(editor.set_video_memory_size(0).is_err());
    assert!(editor.set_video_memory_size(20000).is_err());
    // A rejected write leaves the previously stored value unchanged.
    assert_eq!(editor.get_video_memory_size().unwrap(), Some(512));

    editor.set_video_memory_size(1).unwrap();
    assert_eq!(editor.get_video_memory_size().unwrap(), Some(1));
    editor.set_video_memory_size(16384).unwrap();
    assert_eq!(editor.get_video_memory_size().unwrap(), Some(16384));
}

#[test]
fn dpi_validation() {
    let mut editor = RegistryEditor::new();
    let low = DpiSettings::new_with_dpi(50);
    assert!(editor.set_dpi_settings(&low).is_err());
    assert_eq!(editor.get_dpi_settings().unwrap(), None);

    let ok = DpiSettings::new_with_dpi(120);
    editor.set_dpi_settings(&ok).unwrap();
    let read = editor.get_dpi_settings().unwrap().unwrap();
    assert_eq!(read.log_pixels, Some(120));

    // Settings with no DPI configured are accepted and change nothing.
    editor.set_dpi_settings(&DpiSettings::new()).unwrap();
    assert_eq!(editor.get_dpi_settings().unwrap().unwrap().log_pixels, Some(120));
}

#[test]
fn partial_shader_model_read() {
    // Only one stage set: the composite comes back Some with every other
    // field None, not None.
    let mut editor = RegistryEditor::new();
    assert_eq!(editor.get_shader_model_settings().unwrap(), None);

    let mut s = ShaderModelSettings::new();
    s.max_shader_model_ps = Some(3);
    editor.set_shader_model_settings(&s).unwrap();

    let read = editor.get_shader_model_settings().unwrap();
    assert_eq!(
        read,
        Some(ShaderModelSettings {
            max_shader_model_vs: None,
            max_shader_model_ps: Some(3),
            max_shader_model_gs: None,
            max_shader_model_hs: None,
            max_shader_model_ds: None,
            max_shader_model_cs: None,
        })
    );
}

#[test]
fn x11_driver_round_trip() {
    let mut editor = RegistryEditor::new();
    assert_eq!(editor.get_x11_driver_settings().unwrap(), None);

    let mut s = X11DriverSettings::new();
    s.decorated = Some(true);
    s.grab_fullscreen = Some(false);
    s.use_xvid_mode = Some(true);
    editor.set_x11_driver_settings(&s).unwrap();

    let read = editor.get_x11_driver_settings().unwrap().unwrap();
    assert_eq!(read.decorated, Some(true));
    assert_eq!(read.grab_fullscreen, Some(false));
    assert_eq!(read.use_xvid_mode, Some(true));
    assert_eq!(read.managed, None);

    // The strings on disk follow the uppercase convention.
    assert_eq!(
        editor
            .registry()
            .get_value("Software\\Wine\\X11 Driver", "Decorated")
            .unwrap(),
        Some(RegistryValue::Str("Y".to_string()))
    );
    assert_eq!(
        editor
            .registry()
            .get_value("Software\\Wine\\X11 Driver", "GrabFullscreen")
            .unwrap(),
        Some(RegistryValue::Str("N".to_string()))
    );
}

#[test]
fn mac_driver_encodings() {
    // Lowercase for ordinary flags, "Y"/"n" for retina mode.
    let mut editor = RegistryEditor::new();
    let mut s = MacDriverSettings::new();
    s.allow_vertical_sync = Some(true);
    s.retina_mode = Some(true);
    editor.set_mac_driver_settings(&s).unwrap();
    assert_eq!(
        editor
            .registry()
            .get_value("Software\\Wine\\Mac Driver", "AllowVerticalSync")
            .unwrap(),
        Some(RegistryValue::Str("y".to_string()))
    );
    assert_eq!(
        editor
            .registry()
            .get_value("Software\\Wine\\Mac Driver", "RetinaMode")
            .unwrap(),
        Some(RegistryValue::Str("Y".to_string()))
    );

    let mut s2 = MacDriverSettings::new();
    s2.retina_mode = Some(false);
    editor.set_mac_driver_settings(&s2).unwrap();
    assert_eq!(
        editor
            .registry()
            .get_value("Software\\Wine\\Mac Driver", "RetinaMode")
            .unwrap(),
        Some(RegistryValue::Str("n".to_string()))
    );
}

#[test]
fn desktop_and_virtual_desktop() {
    let mut editor = RegistryEditor::new();
    let ds = editor.get_desktop_settings().unwrap().unwrap();
    assert_eq!(ds.desktop, None);
    assert!(ds.desktops.is_empty());
    assert!(ds.show_systray);

    let settings = DesktopSettings {
        desktop: Some("Default".to_string()),
        desktops: vec![DesktopEntry {
            name: "Default".to_string(),
            size: DesktopSize::new(1024, 768),
        }],
        show_systray: true,
    };
    editor.set_desktop_settings(&settings).unwrap();
    let read = editor.get_desktop_settings().unwrap().unwrap();
    assert_eq!(read.desktop, Some("Default".to_string()));
    assert_eq!(read.desktops.len(), 1);
    assert_eq!(read.desktops[0].size, DesktopSize::new(1024, 768));

    let vd = editor.get_virtual_desktop().unwrap().unwrap();
    assert_eq!(vd, VirtualDesktopSettings::new(true, 1024, 768));

    editor
        .set_virtual_desktop(&VirtualDesktopSettings::new(false, 0, 0))
        .unwrap();
    assert_eq!(editor.get_virtual_desktop().unwrap(), None);
}

#[test]
fn desktop_settings_validation_rejects_bad_name() {
    let mut editor = RegistryEditor::new();
    let bad = DesktopSettings {
        desktop: None,
        desktops: vec![DesktopEntry {
            name: "a*b".to_string(),
            size: DesktopSize::new(640, 480),
        }],
        show_systray: false,
    };
    assert!(editor.set_desktop_settings(&bad).is_err());
    // No partial mutation: nothing was written.
    assert_eq!(editor.get_all_keys().unwrap().len(), 0);
}

#[test]
fn dll_overrides() {
    let mut editor = RegistryEditor::new();
    editor
        .add_dll_override("d3d9", DllOverrideSetting::Native)
        .unwrap();
    editor
        .add_dll_override("winmm", DllOverrideSetting::NativeBuiltin)
        .unwrap();
    let overrides = editor.get_dll_overrides().unwrap();
    assert_eq!(overrides.len(), 2);
    assert!(overrides
        .iter()
        .any(|o| o.dll == "d3d9" && o.setting == DllOverrideSetting::Native));
    assert!(overrides
        .iter()
        .any(|o| o.dll == "winmm" && o.setting == DllOverrideSetting::NativeBuiltin));

    assert!(editor.add_dll_override("bad/name", DllOverrideSetting::Builtin).is_err());

    editor.remove_dll_override("d3d9").unwrap();
    let after = editor.get_dll_overrides().unwrap();
    assert_eq!(after.len(), 1);
    assert_eq!(after[0].dll, "winmm");
}

#[test]
fn app_settings_round_trip() {
    let mut editor = RegistryEditor::new();
    assert_eq!(editor.get_app_settings("game.exe").unwrap(), None);

    let mut settings = winereg::schema::AppSettings::new("game.exe".to_string());
    settings.dll_overrides.push(winereg::schema::DllOverride {
        dll: "dsound".to_string(),
        setting: DllOverrideSetting::Builtin,
    });
    settings.d3d_renderer = Some(winereg::schema::D3DRenderer::OpenGL);
    settings.custom_settings.push(winereg::schema::CustomSetting {
        key: "note".to_string(),
        value: "hi".to_string(),
    });
    editor.set_app_settings("game.exe", &settings).unwrap();

    let read = editor.get_app_settings("game.exe").unwrap().unwrap();
    assert_eq!(read.name, "game.exe");
    assert_eq!(read.dll_overrides.len(), 1);
    assert_eq!(read.dll_overrides[0].dll, "dsound");
    assert_eq!(read.d3d_renderer, Some(winereg::schema::D3DRenderer::OpenGL));
    assert_eq!(read.offscreen_rendering_mode, None);

    editor.remove_app_settings("game.exe").unwrap();
    // Removal writes a tombstone for the application key: the key itself
    // survives as a deletion marker with its values dropped.
    let after = editor.get_app_settings("game.exe").unwrap().unwrap();
    assert!(after.custom_settings.is_empty());
    assert!(editor
        .registry()
        .get_key_values("Software\\Wine\\AppDefaults\\game.exe")
        .unwrap()
        .is_empty());
}

#[test]
fn audio_and_graphics_drivers_use_default_slot() {
    let mut editor = RegistryEditor::new();
    editor.set_audio_driver("pulse").unwrap();
    assert_eq!(editor.get_audio_driver().unwrap(), Some("pulse".to_string()));
    editor.set_graphics_driver("x11").unwrap();
    assert_eq!(editor.get_graphics_driver().unwrap(), Some("x11".to_string()));
    assert!(editor.set_audio_driver("bogus").is_err());
    assert!(editor.set_graphics_driver("bogus").is_err());
    // The value lives in the default slot.
    assert_eq!(
        editor
            .registry()
            .get_value("Software\\Wine\\Drivers\\Audio", "(default)")
            .unwrap(),
        Some(RegistryValue::Str("pulse".to_string()))
    );
}

#[test]
fn validate_registry_reports_violations() {
    let mut editor = RegistryEditor::new();
    editor.set_windows_version("win7").unwrap();
    editor
        .registry
        .set_value("Not\\Under\\Software", "x", RegistryValue::Dword(1))
        .unwrap();
    editor
        .registry
        .set_value("Software\\Wine\\Odd", "bad|name", RegistryValue::Dword(1))
        .unwrap();
    let errors = editor.validate_registry().unwrap();
    assert_eq!(errors.len(), 2);
    assert!(errors
        .iter()
        .any(|e| e.key_path == "Not\\Under\\Software" && e.value_name.is_none()));
    assert!(errors
        .iter()
        .any(|e| e.key_path == "Software\\Wine\\Odd"
            && e.value_name == Some("bad|name".to_string())));
}

#[test]
fn mouse_warp_and_offscreen_modes() {
    let mut editor = RegistryEditor::new();
    editor.set_mouse_warp_override("force").unwrap();
    assert_eq!(editor.get_mouse_warp_override().unwrap(), Some("force".to_string()));
    assert!(editor.set_mouse_warp_override("sometimes").is_err());

    editor.set_offscreen_rendering_mode("fbo").unwrap();
    assert_eq!(
        editor.get_offscreen_rendering_mode().unwrap(),
        Some("fbo".to_string())
    );
    assert!(editor.set_offscreen_rendering_mode("pbuffer").is_err());

    // The legacy renderer spelling decodes to its canonical form.
    editor.set_d3d_renderer("no3d").unwrap();
    assert_eq!(editor.get_d3d_renderer().unwrap(), Some("gdi".to_string()));
}

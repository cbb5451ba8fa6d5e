use winereg::schema::{
    AudioDriver, D3DRenderer, DesktopSize, DllOverrideSetting, GraphicsDriver, MouseWarpOverride,
    OffscreenRenderingMode, WindowsFloatWhenInactive, WindowsVersion,
};

#[test]
fn windows_version_strings() {
    assert_eq!(WindowsVersion::Win10.to_string(), "win10");
    assert_eq!(WindowsVersion::Win31.to_string(), "win31");
    assert_eq!(WindowsVersion::from_string("winxp"), Some(WindowsVersion::WinXP));
    assert_eq!(WindowsVersion::from_string("win2k"), Some(WindowsVersion::Win2K));
    assert_eq!(WindowsVersion::from_string("windows10"), None);
    // Every version survives its own encoding.
    for v in [
        WindowsVersion::Win10,
        WindowsVersion::Win81,
        WindowsVersion::Win8,
        WindowsVersion::Win7,
        WindowsVersion::Win2008,
        WindowsVersion::Vista,
        WindowsVersion::Win2003,
        WindowsVersion::WinXP,
        WindowsVersion::Win2K,
        WindowsVersion::NT40,
        WindowsVersion::WinME,
        WindowsVersion::Win98,
        WindowsVersion::Win95,
        WindowsVersion::Win31,
    ] {
        assert_eq!(WindowsVersion::from_string(v.to_string()), Some(v));
    }
}

#[test]
fn renderer_strings() {
    assert_eq!(D3DRenderer::OpenGL.to_string(), "gl");
    assert_eq!(D3DRenderer::from_string("no3d"), Some(D3DRenderer::GDI));
    assert_eq!(D3DRenderer::from_string("gdi"), Some(D3DRenderer::GDI));
    assert_eq!(D3DRenderer::from_string("metal"), None);
}

#[test]
fn misc_enum_strings() {
    assert_eq!(OffscreenRenderingMode::from_string("fbo"), Some(OffscreenRenderingMode::FBO));
    assert_eq!(OffscreenRenderingMode::from_string("FBO"), None);
    assert_eq!(MouseWarpOverride::Force.to_string(), "force");
    assert_eq!(AudioDriver::Disabled.to_string(), "");
    assert_eq!(AudioDriver::from_string(""), Some(AudioDriver::Disabled));
    assert_eq!(GraphicsDriver::from_string("mac"), Some(GraphicsDriver::Mac));
    assert_eq!(
        WindowsFloatWhenInactive::from_string("nonfullscreen"),
        Some(WindowsFloatWhenInactive::NonFullscreen)
    );
    assert_eq!(
        DllOverrideSetting::from_string("native,builtin"),
        Some(DllOverrideSetting::NativeBuiltin)
    );
    assert_eq!(DllOverrideSetting::from_string("builtin,native,x"), None);
}

#[test]
fn desktop_size_strings() {
    let s = DesktopSize::new(1920, 1080);
    assert_eq!(s.to_string(), "1920x1080");
    assert_eq!(DesktopSize::from_string("1920x1080"), Some(s));
    assert_eq!(DesktopSize::from_string("0x0"), Some(DesktopSize::new(0, 0)));
    assert_eq!(DesktopSize::from_string("1920"), None);
    assert_eq!(DesktopSize::from_string("1920x1080x60"), None);
    assert_eq!(DesktopSize::from_string("x1080"), None);
    assert_eq!(DesktopSize::from_string("axb"), None);
    assert_eq!(DesktopSize::from_string("4294967295x1"), Some(DesktopSize::new(u32::MAX, 1)));
    assert_eq!(DesktopSize::from_string("4294967296x1"), None);
}

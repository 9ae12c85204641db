use dsh_launcher::toast::{
    aumid, file_uri, registry_key, set_reg_string, show_update_toast, toast_xml, Register,
    RegisterAction, RegisterError, ToastStep,
};
use dsh_launcher::wide::to_wide;

#[test]
fn toast_xml_uses_own_aumid_and_protocol_activation() {
    let xml = toast_xml("26.08.18.01");
    assert!(xml.contains("DshLauncher 新版本 v26.08.18.01"));
    assert!(xml.contains("activationType=\"protocol\""));
    assert!(xml.contains("launch=\"https://github.com/NekoPawClub/DshLauncher/releases\""));
}

#[test]
fn file_uri_encodes_spaces_and_reserved_chars() {
    assert_eq!(
        file_uri(r"C:\Users\O'Brien\Dsh Launcher.exe"),
        "file:///C:/Users/O%27Brien/Dsh%20Launcher.exe"
    );
}

#[test]
fn file_uri_encodes_utf8() {
    assert_eq!(file_uri("D:\\中~_-.%"), "file:///D:/%E4%B8%AD~_-.%25");
    assert_eq!(file_uri(""), "file:///");
}

#[test]
fn toast_xml_in_full() {
    assert_eq!(
        toast_xml("1.2"),
        "<toast activationType=\"protocol\" launch=\"https://github.com/NekoPawClub/DshLauncher/releases\"><visual><binding template=\"ToastGeneric\"><text>DshLauncher 新版本 v1.2</text><text>点击通知打开下载页面</text></binding></visual></toast>"
    );
}

#[test]
fn registry_entries() {
    assert_eq!(aumid(), "NekoPawClub.DshLauncher");
    assert_eq!(
        registry_key(),
        to_wide("Software\\Classes\\AppUserModelId\\NekoPawClub.DshLauncher")
    );
    let value = set_reg_string("DisplayName", "中a");
    assert_eq!(value.name, to_wide("DisplayName"));
    assert_eq!(value.value, vec![0x4e2d, 0x61, 0]);
    assert_eq!(value.size, 6);
}

#[test]
fn registering_writes_both_values_and_closes() {
    let mut reg = Register::register_aumid();
    assert_eq!(reg.action, RegisterAction::OpenKey);
    reg.step(0, true);
    assert_eq!(reg.action, RegisterAction::SetName);
    reg.step(5, true);
    assert_eq!(reg.action, RegisterAction::SetIcon);
    reg.step(6, true);
    assert_eq!(reg.action, RegisterAction::CloseKey);
    reg.step(0, true);
    assert_eq!(reg.action, RegisterAction::Finish);
    assert_eq!(reg.error, Some(RegisterError::System(5)));
}

#[test]
fn registering_without_a_key() {
    let mut reg = Register::register_aumid();
    reg.step(3, true);
    assert_eq!(reg, Register { action: RegisterAction::Finish, error: Some(RegisterError::System(3)) });
    let mut reg = Register::register_aumid();
    reg.step(0, false);
    assert_eq!(reg, Register { action: RegisterAction::Finish, error: Some(RegisterError::NoKey) });
    let mut reg = Register::register_aumid();
    for _ in 0..4 {
        reg.step(0, true);
    }
    assert_eq!(reg, Register { action: RegisterAction::Finish, error: None });
}

#[test]
fn steps_of_a_notice() {
    let mut step = ToastStep::FindExe;
    let mut failures = Vec::new();
    for _ in 0..7 {
        failures.push(show_update_toast(step, Some("e")).unwrap_err());
        step = show_update_toast(step, None).unwrap();
    }
    assert_eq!(step, ToastStep::Shown);
    assert_eq!(
        failures,
        vec![
            "获取当前 exe 路径失败：e",
            "注册 AUMID 失败：e",
            "创建 XmlDocument 失败：e",
            "解析 toast XML 失败：e",
            "创建 ToastNotification 失败：e",
            "创建 ToastNotifier 失败：e",
            "显示 toast 失败：e",
        ]
    );
}

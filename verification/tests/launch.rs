use modswitch::config_store::AppConfig;
use modswitch::launch::{branch_program, plan_launch, shipping_binary_path};
use modswitch::selector::Choice;

#[test]
fn shipping_binary_gets_the_flag() {
    let plan = plan_launch(
        "C:\\Games\\WW\\Client\\Binaries\\Win64\\Client-Win64-Shipping.exe".to_string(),
    );
    assert_eq!(
        plan.program,
        "C:\\Games\\WW\\Client\\Binaries\\Win64\\Client-Win64-Shipping.exe"
    );
    assert_eq!(plan.args, vec!["-fileopenlog".to_string()]);
}

#[test]
fn other_binaries_get_no_arguments() {
    let plan = plan_launch("C:\\Tools\\launcher.exe".to_string());
    assert_eq!(plan.program, "C:\\Tools\\launcher.exe");
    assert!(plan.args.is_empty());
}

#[test]
fn the_rule_goes_by_filename_not_substring() {
    let plan = plan_launch("C:\\Client-Win64-Shipping.exe.bak".to_string());
    assert!(plan.args.is_empty());
    let plan = plan_launch("C:\\Client-Win64-Shipping.exe\\other.exe".to_string());
    assert!(plan.args.is_empty());
}

#[test]
fn bare_shipping_name_gets_the_flag() {
    let plan = plan_launch("Client-Win64-Shipping.exe".to_string());
    assert_eq!(plan.args, vec!["-fileopenlog".to_string()]);
}

#[test]
fn shipping_path_is_built_under_the_game_folder() {
    let p = shipping_binary_path("C:\\Games\\WW");
    assert_eq!(
        p,
        "C:\\Games\\WW\\Client\\Binaries\\Win64\\Client-Win64-Shipping.exe"
    );
}

#[test]
fn original_branch_launches_shipping_binary_with_flag() {
    let cfg = AppConfig {
        mods_folder: "C:\\Mods".to_string(),
        game_folder: "C:\\Games\\WW".to_string(),
        modded_launcher: "C:\\Tools\\launcher.exe".to_string(),
    };
    let plan = plan_launch(branch_program(&cfg, Choice::Original));
    assert_eq!(
        plan.program,
        "C:\\Games\\WW\\Client\\Binaries\\Win64\\Client-Win64-Shipping.exe"
    );
    assert_eq!(plan.args, vec!["-fileopenlog".to_string()]);
}

#[test]
fn modded_branch_launches_the_configured_launcher_bare() {
    let cfg = AppConfig {
        mods_folder: "C:\\Mods".to_string(),
        game_folder: "C:\\Games\\WW".to_string(),
        modded_launcher: "C:\\Tools\\launcher.exe".to_string(),
    };
    let plan = plan_launch(branch_program(&cfg, Choice::Modded));
    assert_eq!(plan.program, "C:\\Tools\\launcher.exe");
    assert!(plan.args.is_empty());
}

use app_image_manager::failure::IoFailure;
use app_image_manager::kdialog::{check_ok, error, map_yesno_status, msgbox, warningyesno, yesno,
    Answer, KdialogError};

#[test]
fn dialogs_name_their_kind_after_the_title() {
    assert_eq!(yesno("T", "m"), vec!["--title", "T", "--yesno", "m"]);
    assert_eq!(
        warningyesno("T", "m"),
        vec!["--title", "T", "--warningyesno", "m"]
    );
    assert_eq!(msgbox("T", "m"), vec!["--title", "T", "--msgbox", "m"]);
    assert_eq!(error("T", "m"), vec!["--title", "T", "--error", "m"]);
}

#[test]
fn the_exit_code_is_the_answer() {
    assert_eq!(map_yesno_status(Some(0)).unwrap(), Answer::Yes);
    assert_eq!(map_yesno_status(Some(1)).unwrap(), Answer::No);
    assert!(matches!(map_yesno_status(Some(254)), Err(KdialogError::Failed(254))));
    assert!(matches!(map_yesno_status(None), Err(KdialogError::Failed(-1))));
    assert!(check_ok(Some(0)).is_ok());
    assert!(matches!(check_ok(Some(1)), Err(KdialogError::Failed(1))));
    assert!(matches!(check_ok(None), Err(KdialogError::Failed(-1))));
}

#[test]
fn errors_in_words() {
    let gone = IoFailure {
        not_found: true,
        message: "x".to_string(),
    };
    let denied = IoFailure {
        not_found: false,
        message: "denied".to_string(),
    };
    assert_eq!(KdialogError::from(gone).to_string(), "kdialog not found on PATH");
    assert_eq!(KdialogError::from(denied).to_string(), "kdialog I/O error: denied");
    assert_eq!(KdialogError::Failed(-1).to_string(), "kdialog exited with code -1");
    assert_eq!(
        KdialogError::Failed(i32::MIN).to_string(),
        "kdialog exited with code -2147483648"
    );
    assert_eq!(KdialogError::Failed(254).to_string(), "kdialog exited with code 254");
}

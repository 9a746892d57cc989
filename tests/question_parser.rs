use theory_test_parser::{parse_answers, LicenseClass};

#[test]
fn question_parse() {
    let question_xml = r#"<div dir="rtl" style="text-align: right"><ul><li><span id="correctAnswer0862">שאנו בקיאים בהפעלתו ובשימוש בו.</span></li><li><span>שברכב בוצעו הטיפולים הדרושים לתחזוקתו השוטפת.</span></li><li><span>שברכב נמצאים נורות ונתיכים (פיוזים) חלופיים.</span></li><li><span>שהדלק והשמנים הם מהסוג המתאים להפעלתו התקינה של הרכב.</span></li></ul><div style="padding-top: 4px;"><span><button type="button" onclick="var correctAnswer=document.getElementById('correctAnswer0862');correctAnswer.style.background='yellow'">הצג תשובה נכונה</button></span><br/><span style="float: left;">| «C1» | «C» | «D» | «A» | «1» | «В» | </span></div></div>"#;
    let (answers, license_classes, image_url) = parse_answers(question_xml);
    let possible_answers = answers.possible_answers;
    assert_eq!(possible_answers[0], r#"שאנו בקיאים בהפעלתו ובשימוש בו."#);
    assert_eq!(
        possible_answers[1],
        r#"שברכב בוצעו הטיפולים הדרושים לתחזוקתו השוטפת."#
    );
    assert_eq!(
        possible_answers[2],
        r#"שברכב נמצאים נורות ונתיכים (פיוזים) חלופיים."#
    );
    assert_eq!(
        possible_answers[3],
        r#"שהדלק והשמנים הם מהסוג המתאים להפעלתו התקינה של הרכב."#
    );
    assert_eq!(answers.correct_answer, 0);
    assert_eq!(image_url, None);
    assert!(license_classes.contains(&LicenseClass::A));
    assert!(license_classes.contains(&LicenseClass::B));
    assert!(license_classes.contains(&LicenseClass::C));
    assert!(license_classes.contains(&LicenseClass::C1));
    assert!(license_classes.contains(&LicenseClass::D));

    let question_xml = r#"<div dir="rtl" style="text-align: right"><ul><li><span id="correctAnswer0667">עצור לפני הצומת, אלא אם כן אינך יכול לעצור בבטחה.</span></li><li><span>היכון לנסיעה. מיד יתחלף האור ברמזור לירוק.</span></li><li><span>המשך בנסיעה. האור ברמזור יתחלף מיד לאור ירוק.</span></li><li><span>מותר לנסוע ישר, ימינה ושמאלה.</span></li></ul><img src="https://www.gov.il/BlobFolder/generalpage/tq_pic_02/he/TQ_PIC_3667.jpg" style="width: 100%; padding: 0pt; border: 0pt none; outline: 0pt none;" alt="yellow_traffic_light" title="yellow_traffic_light" /><div style="padding-top: 4px;"><span><button type="button" onclick="var correctAnswer=document.getElementById('correctAnswer0667');correctAnswer.style.background='yellow'">הצג תשובה נכונה</button></span><br/><span style="float: left;">| «C1» | «C» | «D» | «A» | «1» | «В» | </span></div></div>"#;
    let (answers, license_classes, image_url) = parse_answers(question_xml);
    let possible_answers = answers.possible_answers;
    assert_eq!(
        possible_answers[0],
        r#"עצור לפני הצומת, אלא אם כן אינך יכול לעצור בבטחה."#
    );
    assert_eq!(
        possible_answers[1],
        r#"היכון לנסיעה. מיד יתחלף האור ברמזור לירוק."#
    );
    assert_eq!(
        possible_answers[2],
        r#"המשך בנסיעה. האור ברמזור יתחלף מיד לאור ירוק."#
    );
    assert_eq!(possible_answers[3], r#"מותר לנסוע ישר, ימינה ושמאלה."#);
    assert_eq!(answers.correct_answer, 0);
    assert_eq!(
        image_url,
        Some(
            "https://www.gov.il/BlobFolder/generalpage/tq_pic_02/he/TQ_PIC_3667.jpg"
                .to_string()
        )
    );
    assert!(license_classes.contains(&LicenseClass::A));
    assert!(license_classes.contains(&LicenseClass::B));
    assert!(license_classes.contains(&LicenseClass::C));
    assert!(license_classes.contains(&LicenseClass::C1));
    assert!(license_classes.contains(&LicenseClass::D));
}

use kalendar::EditorField;

#[test]
fn fields_cycle_in_tab_order() {
    let order = [
        EditorField::Title,
        EditorField::Calendar,
        EditorField::Date,
        EditorField::Start,
        EditorField::End,
        EditorField::AllDay,
        EditorField::Location,
        EditorField::Notes,
    ];
    for (i, field) in order.iter().enumerate() {
        assert_eq!(field.next(), order[(i + 1) % order.len()]);
        assert_eq!(field.previous(), order[(i + order.len() - 1) % order.len()]);
        assert_eq!(field.next().previous(), *field);
        assert_eq!(field.previous().next(), *field);
    }
}

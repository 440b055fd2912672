use libsurfer::color::Rgb;
use libsurfer::config::{
    default_next, default_true, hex_string_to_color32, ArrowKeyBindings, AutoLoad,
    PrimaryMouseDrag, SurferBehavior, TransitionValue,
};
use libsurfer::config_dialog::{
    ConfigSectionMetadata, DialogResult, EnumVariantBuilder, FieldMetadataBuilder, FieldType,
};
use libsurfer::config_dialog_ui::{ConfigDialogBuilder, FormValidator, FormValue, SuggestedWidget};
use libsurfer::displayed_item::{
    AnalogRenderStyle, AnalogSettings, AnalogVarState, AnalogYAxisScale, DisplayedFieldRef,
    DisplayedItemRef, DisplayedMarker,
};
use libsurfer::tiles::SurferPane;

#[test]
fn test_hex_string_3_chars() {
    let result = hex_string_to_color32("abc".to_string()).unwrap();
    let expected = Rgb::from_rgb(0xaa, 0xbb, 0xcc);
    assert_eq!(result, expected);
}

#[test]
fn test_hex_string_6_chars() {
    let result = hex_string_to_color32("a7e47e".to_string()).unwrap();
    let expected = Rgb::from_rgb(0xa7, 0xe4, 0x7e);
    assert_eq!(result, expected);
}

#[test]
fn test_hex_string_black() {
    let result = hex_string_to_color32("000000".to_string()).unwrap();
    let expected = Rgb::from_rgb(0x00, 0x00, 0x00);
    assert_eq!(result, expected);
}

#[test]
fn test_hex_string_white() {
    let result = hex_string_to_color32("ffffff".to_string()).unwrap();
    let expected = Rgb::from_rgb(0xff, 0xff, 0xff);
    assert_eq!(result, expected);
}

#[test]
fn test_hex_string_uppercase() {
    let result = hex_string_to_color32("ABCDEF".to_string()).unwrap();
    let expected = Rgb::from_rgb(0xab, 0xcd, 0xef);
    assert_eq!(result, expected);
}

#[test]
fn test_hex_string_mixed_case() {
    let result = hex_string_to_color32("Ab5DeF".to_string()).unwrap();
    let expected = Rgb::from_rgb(0xab, 0x5d, 0xef);
    assert_eq!(result, expected);
}

#[test]
fn test_hex_string_invalid_length() {
    let result = hex_string_to_color32("ab".to_string());
    assert!(result.is_err());

    let result = hex_string_to_color32("abcde".to_string());
    assert!(result.is_err());

    let result = hex_string_to_color32("abcdefgh".to_string());
    assert!(result.is_err());
}

#[test]
fn test_hex_string_invalid_characters() {
    let result = hex_string_to_color32("GGGGGG".to_string());
    assert!(result.is_err());

    let result = hex_string_to_color32("12345g".to_string());
    assert!(result.is_err());

    let result = hex_string_to_color32("zzzzzz".to_string());
    assert!(result.is_err());
}

#[test]
fn test_hex_string_empty() {
    let result = hex_string_to_color32(String::new());
    assert!(result.is_err());
}

#[test]
fn test_hex_string_3_chars_doubling() {
    let result = hex_string_to_color32("050".to_string()).unwrap();
    let expected = Rgb::from_rgb(0x00, 0x55, 0x00);
    assert_eq!(result, expected);
}

#[test]
fn hex_string_reads_plus_signs_as_radix_parsing_does() {
    assert_eq!(hex_string_to_color32("+a+b+c".to_string()).unwrap(), Rgb::from_rgb(10, 11, 12));
    assert!(hex_string_to_color32("-1-1-1".to_string()).is_err());
    let err = hex_string_to_color32("xyz".to_string()).unwrap_err();
    assert_eq!(err.text, "xxyyzz");
    // a two-byte character and an ASCII one make three bytes: read as text, not hex
    assert!(hex_string_to_color32("éa".to_string()).is_err());
}

#[test]
fn test_enum_variant_metadata() {
    let variant = EnumVariantBuilder::new("Edge")
        .display_name("Step by Edge")
        .description("Step to the next edge")
        .explanation("When enabled, arrow keys will step to the next rising or falling edge")
        .build();

    assert_eq!(variant.name, "Edge");
    assert_eq!(variant.display_name(), "Step by Edge");
    assert_eq!(
        variant.description,
        Some("Step to the next edge".to_string())
    );
}

#[test]
fn test_enum_variant_fallback_display_name() {
    let variant = EnumVariantBuilder::new("Edge")
        .description("Step to the next edge")
        .build();

    assert_eq!(variant.display_name(), "Edge");
}

#[test]
fn test_dialog_result_eq() {
    assert_eq!(DialogResult::Applied, DialogResult::Applied);
    assert_eq!(DialogResult::Cancelled, DialogResult::Cancelled);
    assert_eq!(DialogResult::Pending, DialogResult::Pending);
    assert_ne!(DialogResult::Applied, DialogResult::Cancelled);
}

#[test]
fn config_values_and_defaults() {
    assert_eq!(AutoLoad::from_bool(true), AutoLoad::Always);
    assert_eq!(AutoLoad::from_bool(false), AutoLoad::Never);
    assert!(default_true());
    assert_eq!(default_next(), TransitionValue::Next);
    let behavior = SurferBehavior::new(true, ArrowKeyBindings::Scroll, PrimaryMouseDrag::Cursor);
    assert_eq!(behavior.arrow_key_bindings(), ArrowKeyBindings::Scroll);
    assert_eq!(behavior.primary_button_drag_behavior(), PrimaryMouseDrag::Cursor);
    assert!(behavior.keep_during_reload);
    assert_eq!(PrimaryMouseDrag::Measure.display_text(), "Measure time");
    assert_eq!(PrimaryMouseDrag::Cursor.display_text(), "Move cursor");
}

#[test]
fn displayed_items_and_analog_settings() {
    let field = DisplayedFieldRef {
        item: DisplayedItemRef::from(4),
        field: vec!["a".to_string(), "b".to_string()],
    };
    let whole = field.without_field();
    assert_eq!(whole.item, DisplayedItemRef(4));
    assert!(whole.field.is_empty());

    assert_eq!(AnalogRenderStyle::Step.label(), "Step");
    assert_eq!(AnalogRenderStyle::Interpolated.label(), "Interpolated");
    assert_eq!(AnalogYAxisScale::Viewport.label(), "Viewport");
    assert_eq!(AnalogYAxisScale::Global.label(), "Global");
    assert_eq!(AnalogYAxisScale::TypeLimits.label(), "Type Limits");

    let mut settings = AnalogSettings {
        render_style: AnalogRenderStyle::Interpolated,
        y_axis_scale: AnalogYAxisScale::TypeLimits,
    };
    settings.downgrade_type_limits();
    assert_eq!(settings.y_axis_scale, AnalogYAxisScale::Global);
    assert_eq!(settings.render_style, AnalogRenderStyle::Interpolated);
    settings.y_axis_scale = AnalogYAxisScale::Viewport;
    settings.downgrade_type_limits();
    assert_eq!(settings.y_axis_scale, AnalogYAxisScale::Viewport);
    assert_eq!(AnalogVarState::new(settings).settings, settings);

    let unnamed = DisplayedMarker { color: None, background_color: None, name: None, idx: 3 };
    assert_eq!(unnamed.marker_name(), "Marker");
    let named = DisplayedMarker { name: Some("start".to_string()), ..unnamed };
    assert_eq!(named.marker_name(), "start");

    assert_eq!(SurferPane::Waveform.title(), "Waveform");
    assert_eq!(SurferPane::DebugTile(17).title(), "Debug Tile 17");
}

#[test]
fn test_field_metadata_builder() {
    let metadata = FieldMetadataBuilder::new("test_field", FieldType::<f32>::Bool)
        .label("Test Field")
        .description("A test boolean field")
        .explanation("This field controls test behavior")
        .order(5)
        .build();

    assert_eq!(metadata.name, "test_field");
    assert_eq!(metadata.label, "Test Field");
    assert_eq!(metadata.description, "A test boolean field");
    assert_eq!(
        metadata.explanation,
        Some("This field controls test behavior".to_string())
    );
    assert_eq!(metadata.order, 5);
}

#[test]
fn test_field_metadata_label_conversion() {
    let metadata = FieldMetadataBuilder::new("show_hierarchy", FieldType::<f32>::Bool)
        .description("Show hierarchy")
        .build();

    assert_eq!(metadata.label, "Show Hierarchy");
}

#[test]
fn labels_from_names_keep_empty_words_and_upper_case_fully() {
    let label = |name: &str| FieldMetadataBuilder::new(name, FieldType::<f32>::Color).build().label;
    assert_eq!(label("a__b_"), "A  B ");
    assert_eq!(label("ßig_éclair"), "SSig Éclair");
    assert_eq!(label(""), "");
}

#[test]
fn test_suggested_widget() {
    assert_eq!(
        SuggestedWidget::for_field(&FieldType::<f32>::Bool),
        SuggestedWidget::Checkbox
    );
    assert_eq!(
        SuggestedWidget::for_field(&FieldType::<f32>::Color),
        SuggestedWidget::ColorPicker
    );
    assert_eq!(
        SuggestedWidget::for_field(&FieldType::<f32>::Enum { variants: vec![] }),
        SuggestedWidget::Dropdown
    );
}

#[test]
fn widgets_for_bounded_and_unbounded_numbers() {
    let bounded = FieldType::<f32>::Float { min: Some(0.0), max: Some(1.0), step: None };
    let open = FieldType::<f32>::Float { min: Some(0.0), max: None, step: None };
    assert_eq!(SuggestedWidget::for_field(&bounded), SuggestedWidget::Slider);
    assert_eq!(SuggestedWidget::for_field(&open), SuggestedWidget::TextInput);
    assert_eq!(
        SuggestedWidget::for_field(&FieldType::<f32>::I32 { min: None, max: Some(3) }),
        SuggestedWidget::Spinner
    );
    assert_eq!(
        SuggestedWidget::for_field(&FieldType::<f32>::String { multiline: true, max_length: None }),
        SuggestedWidget::TextArea
    );
}

#[test]
fn test_config_dialog_builder() {
    let metadata = ConfigSectionMetadata {
        name: "test".to_string(),
        label: "Test".to_string(),
        description: "Test section".to_string(),
        fields: vec![
            FieldMetadataBuilder::new("field1", FieldType::<f32>::Bool)
                .order(2)
                .build(),
            FieldMetadataBuilder::new("field2", FieldType::<f32>::Bool)
                .order(1)
                .build(),
        ],
    };

    let builder = ConfigDialogBuilder::new(metadata);
    let sorted = builder.fields_sorted();

    assert_eq!(sorted[0].name, "field2");
    assert_eq!(sorted[1].name, "field1");
}

#[test]
fn fields_of_equal_order_keep_their_place() {
    let field = |name: &str, order: usize| {
        FieldMetadataBuilder::new(name, FieldType::<f32>::Color).order(order).build()
    };
    let builder = ConfigDialogBuilder::new(ConfigSectionMetadata {
        name: "s".to_string(),
        label: "S".to_string(),
        description: String::new(),
        fields: vec![field("c", 3), field("a", 1), field("d", 3), field("b", 1)],
    });
    let names: Vec<&str> = builder.fields_sorted().iter().map(|f| f.name.as_str()).collect();
    assert_eq!(names, vec!["a", "b", "c", "d"]);
}

#[test]
fn validation_of_fields_without_floats() {
    let usize_field = FieldMetadataBuilder::new(
        "n",
        FieldType::<f32>::USize { min: Some(2), max: Some(10) },
    )
    .build();
    assert_eq!(FormValidator::validate(&usize_field, &FormValue::Integer(5)), Ok(()));
    assert_eq!(
        FormValidator::validate(&usize_field, &FormValue::Integer(-1)),
        Err("Value must be non-negative".to_string())
    );
    assert_eq!(
        FormValidator::validate(&usize_field, &FormValue::Integer(1)),
        Err("Value must be at least 2".to_string())
    );
    assert_eq!(
        FormValidator::validate(&usize_field, &FormValue::Integer(11)),
        Err("Value must be at most 10".to_string())
    );
    assert_eq!(
        FormValidator::validate(&usize_field, &FormValue::Bool(true)),
        Err("Type mismatch between field and value".to_string())
    );

    let text = FieldMetadataBuilder::new(
        "t",
        FieldType::<f32>::String { multiline: false, max_length: Some(3) },
    )
    .build();
    assert_eq!(FormValidator::validate(&text, &FormValue::String("abc".to_string())), Ok(()));
    // The maximum length counts bytes: "é" takes two.
    assert_eq!(
        FormValidator::validate(&text, &FormValue::String("aé".to_string())),
        Ok(())
    );
    assert_eq!(
        FormValidator::validate(&text, &FormValue::String("abé".to_string())),
        Err("String must be at most 3 characters".to_string())
    );

    let choice = FieldMetadataBuilder::new(
        "e",
        FieldType::<f32>::Enum {
            variants: vec![
                EnumVariantBuilder::new("Edge").build(),
                EnumVariantBuilder::new("Scroll").build(),
            ],
        },
    )
    .build();
    assert_eq!(FormValidator::validate(&choice, &FormValue::Enum("Scroll".to_string())), Ok(()));
    assert_eq!(
        FormValidator::validate(&choice, &FormValue::Enum("Zoom".to_string())),
        Err("'Zoom' is not a valid option".to_string())
    );

    let color = FieldMetadataBuilder::new("c", FieldType::<f32>::Color).build();
    assert_eq!(FormValidator::validate(&color, &FormValue::Color([1, 2, 3])), Ok(()));
    let flag = FieldMetadataBuilder::new("b", FieldType::<f32>::Bool).build();
    assert_eq!(FormValidator::validate(&flag, &FormValue::Bool(false)), Ok(()));
    // Bounds of the other integer kinds are not checked: their values count as a mismatch.
    let small = FieldMetadataBuilder::new("u", FieldType::<f32>::U16 { min: None, max: None }).build();
    assert!(FormValidator::validate(&small, &FormValue::Integer(1)).is_err());
}

#[test]
fn form_values_convert_to_their_own_kind_only() {
    assert_eq!(FormValue::<f32>::Bool(true).as_bool(), Some(true));
    assert_eq!(FormValue::<f32>::Integer(42).as_bool(), None);
    assert_eq!(FormValue::<f32>::String("hello".to_string()).as_string(), Some("hello"));
    assert_eq!(FormValue::<f32>::Enum("Edge".to_string()).as_enum(), Some("Edge"));
    assert_eq!(FormValue::<f32>::Enum("Edge".to_string()).as_string(), None);
    assert_eq!(FormValue::<f32>::Color([4, 5, 6]).as_color(), Some([4, 5, 6]));
}

use libsurfer::time::{create_cache, format_locale, LocaleFormatCache};

fn cache_of(grouping: &[i64], thousands_sep: &str, decimal_point: &str) -> LocaleFormatCache {
    create_cache(grouping, thousands_sep, decimal_point)
}

/// The formatting properties of a locale, by its name.
fn locale_cache(name: &str) -> LocaleFormatCache {
    match name {
        "en_US" => cache_of(
            pure_rust_locales::en_US::LC_NUMERIC::GROUPING,
            pure_rust_locales::en_US::LC_NUMERIC::THOUSANDS_SEP,
            pure_rust_locales::en_US::LC_NUMERIC::DECIMAL_POINT,
        ),
        "de_DE" => cache_of(
            pure_rust_locales::de_DE::LC_NUMERIC::GROUPING,
            pure_rust_locales::de_DE::LC_NUMERIC::THOUSANDS_SEP,
            pure_rust_locales::de_DE::LC_NUMERIC::DECIMAL_POINT,
        ),
        "fr_FR" => cache_of(
            pure_rust_locales::fr_FR::LC_NUMERIC::GROUPING,
            pure_rust_locales::fr_FR::LC_NUMERIC::THOUSANDS_SEP,
            pure_rust_locales::fr_FR::LC_NUMERIC::DECIMAL_POINT,
        ),
        "es_ES" => cache_of(
            pure_rust_locales::es_ES::LC_NUMERIC::GROUPING,
            pure_rust_locales::es_ES::LC_NUMERIC::THOUSANDS_SEP,
            pure_rust_locales::es_ES::LC_NUMERIC::DECIMAL_POINT,
        ),
        "it_IT" => cache_of(
            pure_rust_locales::it_IT::LC_NUMERIC::GROUPING,
            pure_rust_locales::it_IT::LC_NUMERIC::THOUSANDS_SEP,
            pure_rust_locales::it_IT::LC_NUMERIC::DECIMAL_POINT,
        ),
        "pt_BR" => cache_of(
            pure_rust_locales::pt_BR::LC_NUMERIC::GROUPING,
            pure_rust_locales::pt_BR::LC_NUMERIC::THOUSANDS_SEP,
            pure_rust_locales::pt_BR::LC_NUMERIC::DECIMAL_POINT,
        ),
        "pt_PT" => cache_of(
            pure_rust_locales::pt_PT::LC_NUMERIC::GROUPING,
            pure_rust_locales::pt_PT::LC_NUMERIC::THOUSANDS_SEP,
            pure_rust_locales::pt_PT::LC_NUMERIC::DECIMAL_POINT,
        ),
        "ja_JP" => cache_of(
            pure_rust_locales::ja_JP::LC_NUMERIC::GROUPING,
            pure_rust_locales::ja_JP::LC_NUMERIC::THOUSANDS_SEP,
            pure_rust_locales::ja_JP::LC_NUMERIC::DECIMAL_POINT,
        ),
        "zh_CN" => cache_of(
            pure_rust_locales::zh_CN::LC_NUMERIC::GROUPING,
            pure_rust_locales::zh_CN::LC_NUMERIC::THOUSANDS_SEP,
            pure_rust_locales::zh_CN::LC_NUMERIC::DECIMAL_POINT,
        ),
        "zh_TW" => cache_of(
            pure_rust_locales::zh_TW::LC_NUMERIC::GROUPING,
            pure_rust_locales::zh_TW::LC_NUMERIC::THOUSANDS_SEP,
            pure_rust_locales::zh_TW::LC_NUMERIC::DECIMAL_POINT,
        ),
        "ru_RU" => cache_of(
            pure_rust_locales::ru_RU::LC_NUMERIC::GROUPING,
            pure_rust_locales::ru_RU::LC_NUMERIC::THOUSANDS_SEP,
            pure_rust_locales::ru_RU::LC_NUMERIC::DECIMAL_POINT,
        ),
        "ko_KR" => cache_of(
            pure_rust_locales::ko_KR::LC_NUMERIC::GROUPING,
            pure_rust_locales::ko_KR::LC_NUMERIC::THOUSANDS_SEP,
            pure_rust_locales::ko_KR::LC_NUMERIC::DECIMAL_POINT,
        ),
        "pl_PL" => cache_of(
            pure_rust_locales::pl_PL::LC_NUMERIC::GROUPING,
            pure_rust_locales::pl_PL::LC_NUMERIC::THOUSANDS_SEP,
            pure_rust_locales::pl_PL::LC_NUMERIC::DECIMAL_POINT,
        ),
        "tr_TR" => cache_of(
            pure_rust_locales::tr_TR::LC_NUMERIC::GROUPING,
            pure_rust_locales::tr_TR::LC_NUMERIC::THOUSANDS_SEP,
            pure_rust_locales::tr_TR::LC_NUMERIC::DECIMAL_POINT,
        ),
        "nl_NL" => cache_of(
            pure_rust_locales::nl_NL::LC_NUMERIC::GROUPING,
            pure_rust_locales::nl_NL::LC_NUMERIC::THOUSANDS_SEP,
            pure_rust_locales::nl_NL::LC_NUMERIC::DECIMAL_POINT,
        ),
        "sv_SE" => cache_of(
            pure_rust_locales::sv_SE::LC_NUMERIC::GROUPING,
            pure_rust_locales::sv_SE::LC_NUMERIC::THOUSANDS_SEP,
            pure_rust_locales::sv_SE::LC_NUMERIC::DECIMAL_POINT,
        ),
        "da_DK" => cache_of(
            pure_rust_locales::da_DK::LC_NUMERIC::GROUPING,
            pure_rust_locales::da_DK::LC_NUMERIC::THOUSANDS_SEP,
            pure_rust_locales::da_DK::LC_NUMERIC::DECIMAL_POINT,
        ),
        "fi_FI" => cache_of(
            pure_rust_locales::fi_FI::LC_NUMERIC::GROUPING,
            pure_rust_locales::fi_FI::LC_NUMERIC::THOUSANDS_SEP,
            pure_rust_locales::fi_FI::LC_NUMERIC::DECIMAL_POINT,
        ),
        "el_GR" => cache_of(
            pure_rust_locales::el_GR::LC_NUMERIC::GROUPING,
            pure_rust_locales::el_GR::LC_NUMERIC::THOUSANDS_SEP,
            pure_rust_locales::el_GR::LC_NUMERIC::DECIMAL_POINT,
        ),
        "hu_HU" => cache_of(
            pure_rust_locales::hu_HU::LC_NUMERIC::GROUPING,
            pure_rust_locales::hu_HU::LC_NUMERIC::THOUSANDS_SEP,
            pure_rust_locales::hu_HU::LC_NUMERIC::DECIMAL_POINT,
        ),
        "cs_CZ" => cache_of(
            pure_rust_locales::cs_CZ::LC_NUMERIC::GROUPING,
            pure_rust_locales::cs_CZ::LC_NUMERIC::THOUSANDS_SEP,
            pure_rust_locales::cs_CZ::LC_NUMERIC::DECIMAL_POINT,
        ),
        "ro_RO" => cache_of(
            pure_rust_locales::ro_RO::LC_NUMERIC::GROUPING,
            pure_rust_locales::ro_RO::LC_NUMERIC::THOUSANDS_SEP,
            pure_rust_locales::ro_RO::LC_NUMERIC::DECIMAL_POINT,
        ),
        "th_TH" => cache_of(
            pure_rust_locales::th_TH::LC_NUMERIC::GROUPING,
            pure_rust_locales::th_TH::LC_NUMERIC::THOUSANDS_SEP,
            pure_rust_locales::th_TH::LC_NUMERIC::DECIMAL_POINT,
        ),
        "vi_VN" => cache_of(
            pure_rust_locales::vi_VN::LC_NUMERIC::GROUPING,
            pure_rust_locales::vi_VN::LC_NUMERIC::THOUSANDS_SEP,
            pure_rust_locales::vi_VN::LC_NUMERIC::DECIMAL_POINT,
        ),
        "ar_SA" => cache_of(
            pure_rust_locales::ar_SA::LC_NUMERIC::GROUPING,
            pure_rust_locales::ar_SA::LC_NUMERIC::THOUSANDS_SEP,
            pure_rust_locales::ar_SA::LC_NUMERIC::DECIMAL_POINT,
        ),
        "he_IL" => cache_of(
            pure_rust_locales::he_IL::LC_NUMERIC::GROUPING,
            pure_rust_locales::he_IL::LC_NUMERIC::THOUSANDS_SEP,
            pure_rust_locales::he_IL::LC_NUMERIC::DECIMAL_POINT,
        ),
        "id_ID" => cache_of(
            pure_rust_locales::id_ID::LC_NUMERIC::GROUPING,
            pure_rust_locales::id_ID::LC_NUMERIC::THOUSANDS_SEP,
            pure_rust_locales::id_ID::LC_NUMERIC::DECIMAL_POINT,
        ),
        "uk_UA" => cache_of(
            pure_rust_locales::uk_UA::LC_NUMERIC::GROUPING,
            pure_rust_locales::uk_UA::LC_NUMERIC::THOUSANDS_SEP,
            pure_rust_locales::uk_UA::LC_NUMERIC::DECIMAL_POINT,
        ),
        "en_GB" => cache_of(
            pure_rust_locales::en_GB::LC_NUMERIC::GROUPING,
            pure_rust_locales::en_GB::LC_NUMERIC::THOUSANDS_SEP,
            pure_rust_locales::en_GB::LC_NUMERIC::DECIMAL_POINT,
        ),
        "en_AU" => cache_of(
            pure_rust_locales::en_AU::LC_NUMERIC::GROUPING,
            pure_rust_locales::en_AU::LC_NUMERIC::THOUSANDS_SEP,
            pure_rust_locales::en_AU::LC_NUMERIC::DECIMAL_POINT,
        ),
        "en_CA" => cache_of(
            pure_rust_locales::en_CA::LC_NUMERIC::GROUPING,
            pure_rust_locales::en_CA::LC_NUMERIC::THOUSANDS_SEP,
            pure_rust_locales::en_CA::LC_NUMERIC::DECIMAL_POINT,
        ),
        "en_NZ" => cache_of(
            pure_rust_locales::en_NZ::LC_NUMERIC::GROUPING,
            pure_rust_locales::en_NZ::LC_NUMERIC::THOUSANDS_SEP,
            pure_rust_locales::en_NZ::LC_NUMERIC::DECIMAL_POINT,
        ),
        "en_IN" => cache_of(
            pure_rust_locales::en_IN::LC_NUMERIC::GROUPING,
            pure_rust_locales::en_IN::LC_NUMERIC::THOUSANDS_SEP,
            pure_rust_locales::en_IN::LC_NUMERIC::DECIMAL_POINT,
        ),
        "fr_CA" => cache_of(
            pure_rust_locales::fr_CA::LC_NUMERIC::GROUPING,
            pure_rust_locales::fr_CA::LC_NUMERIC::THOUSANDS_SEP,
            pure_rust_locales::fr_CA::LC_NUMERIC::DECIMAL_POINT,
        ),
        "de_AT" => cache_of(
            pure_rust_locales::de_AT::LC_NUMERIC::GROUPING,
            pure_rust_locales::de_AT::LC_NUMERIC::THOUSANDS_SEP,
            pure_rust_locales::de_AT::LC_NUMERIC::DECIMAL_POINT,
        ),
        "de_CH" => cache_of(
            pure_rust_locales::de_CH::LC_NUMERIC::GROUPING,
            pure_rust_locales::de_CH::LC_NUMERIC::THOUSANDS_SEP,
            pure_rust_locales::de_CH::LC_NUMERIC::DECIMAL_POINT,
        ),
        "fr_CH" => cache_of(
            pure_rust_locales::fr_CH::LC_NUMERIC::GROUPING,
            pure_rust_locales::fr_CH::LC_NUMERIC::THOUSANDS_SEP,
            pure_rust_locales::fr_CH::LC_NUMERIC::DECIMAL_POINT,
        ),
        "it_CH" => cache_of(
            pure_rust_locales::it_CH::LC_NUMERIC::GROUPING,
            pure_rust_locales::it_CH::LC_NUMERIC::THOUSANDS_SEP,
            pure_rust_locales::it_CH::LC_NUMERIC::DECIMAL_POINT,
        ),
        "es_MX" => cache_of(
            pure_rust_locales::es_MX::LC_NUMERIC::GROUPING,
            pure_rust_locales::es_MX::LC_NUMERIC::THOUSANDS_SEP,
            pure_rust_locales::es_MX::LC_NUMERIC::DECIMAL_POINT,
        ),
        "es_AR" => cache_of(
            pure_rust_locales::es_AR::LC_NUMERIC::GROUPING,
            pure_rust_locales::es_AR::LC_NUMERIC::THOUSANDS_SEP,
            pure_rust_locales::es_AR::LC_NUMERIC::DECIMAL_POINT,
        ),
        _ => panic!("no such locale in this test: {name}"),
    }
}

#[test]
fn test_locale_cache_en_us() {
    let cache = locale_cache("en_US");

    // en_US uses period as decimal point and comma as thousands separator
    let result = format_locale("1234567.89", &cache);
    assert_eq!(result, "1,234,567.89");
}

#[test]
fn test_locale_cache_de_de() {
    let cache = locale_cache("de_DE");

    let result = format_locale("1234567.89", &cache);
    assert_eq!(result, "1.234.567,89");
}

#[test]
fn test_locale_cache_fr_fr() {
    let cache = locale_cache("fr_FR");

    // fr_FR typically uses space/thin_space and comma
    let result = format_locale("1234567.89", &cache);
    assert_eq!(result, "1\u{2009}234\u{2009}567,89");
}

#[test]
fn test_locale_cache_small_numbers() {
    let cache = locale_cache("en_US");

    // Numbers smaller than grouping threshold should remain unchanged
    assert_eq!(format_locale("123", &cache), "123");
    assert_eq!(format_locale("12.34", &cache), "12.34");
    assert_eq!(format_locale("0", &cache), "0");
}

#[test]
fn test_locale_cache_consistency_across_locales() {
    // Verify that creating cache for the same locale twice produces consistent results
    let cache1 = locale_cache("en_US");
    let cache2 = locale_cache("en_US");

    assert_eq!(cache1.thousands_sep, cache2.thousands_sep);
    assert_eq!(cache1.decimal_point, cache2.decimal_point);
    assert_eq!(cache1.grouping, cache2.grouping);
}

#[test]
fn test_create_cache_from_various_locales() {
    // Test that create_cache works for many locales without panicking
    let locales = vec![
        "en_US",
        "de_DE",
        "fr_FR",
        "es_ES",
        "it_IT",
        "pt_BR",
        "pt_PT",
        "ja_JP",
        "zh_CN",
        "zh_TW",
        "ru_RU",
        "ko_KR",
        "pl_PL",
        "tr_TR",
        "nl_NL",
        "sv_SE",
        "da_DK",
        "fi_FI",
        "el_GR",
        "hu_HU",
        "cs_CZ",
        "ro_RO",
        "th_TH",
        "vi_VN",
        "ar_SA",
        "he_IL",
        "id_ID",
        "uk_UA",
        "en_GB",
        "en_AU",
        "en_CA",
        "en_NZ",
        "en_IN",
        "fr_CA",
        "de_AT",
        "de_CH",
        "fr_CH",
        "it_CH",
        "es_MX",
        "es_AR",
    ];

    for locale in locales {
        let cache = locale_cache(locale);
        // Check so that it is not empty for a sample number
        assert!(
            !format_locale("1234567.89", &cache).is_empty(),
            "Failed for {locale:?}"
        );
    }
}

#[test]
fn create_cache_thins_narrow_no_break_spaces() {
    let cache = create_cache(&[3], "\u{202f}", ",");
    assert_eq!(cache.thousands_sep, "\u{2009}");
    assert_eq!(format_locale("1234567", &cache), "1\u{2009}234\u{2009}567");
    let cache = create_cache(&[-1], ".", ",");
    assert_eq!(format_locale("1234567.5", &cache), "1234567.5");
}

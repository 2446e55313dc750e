use vk_backend::sampler::{parse_sampler_name, AddressMode, MipmapMode, SamplerDesc, TexelFilter};

fn desc(texel_filter: TexelFilter, mipmap_mode: MipmapMode, address_modes: AddressMode) -> SamplerDesc {
    SamplerDesc { texel_filter, mipmap_mode, address_modes }
}

#[test]
fn parses_linear_linear_repeat() {
    assert_eq!(
        parse_sampler_name("sampler_llr"),
        Some(desc(TexelFilter::Linear, MipmapMode::Linear, AddressMode::Repeat))
    );
}

#[test]
fn parses_two_letter_address_modes() {
    assert_eq!(
        parse_sampler_name("sampler_nlmr"),
        Some(desc(TexelFilter::Nearest, MipmapMode::Linear, AddressMode::MirroredRepeat))
    );
    assert_eq!(
        parse_sampler_name("sampler_lncb"),
        Some(desc(TexelFilter::Linear, MipmapMode::Nearest, AddressMode::ClampToBorder))
    );
    assert_eq!(
        parse_sampler_name("sampler_nnc"),
        Some(desc(TexelFilter::Nearest, MipmapMode::Nearest, AddressMode::ClampToEdge))
    );
}

#[test]
fn every_sampler_name_reads_back() {
    let filters = [TexelFilter::Nearest, TexelFilter::Linear];
    let mips = [MipmapMode::Nearest, MipmapMode::Linear];
    let modes = [
        (AddressMode::Repeat, "r"),
        (AddressMode::MirroredRepeat, "mr"),
        (AddressMode::ClampToEdge, "c"),
        (AddressMode::ClampToBorder, "cb"),
    ];
    let mut seen = Vec::new();
    for (fi, f) in filters.iter().enumerate() {
        for (mi, m) in mips.iter().enumerate() {
            for (a, code) in modes.iter() {
                let name = format!(
                    "sampler_{}{}{}",
                    ["n", "l"][fi],
                    ["n", "l"][mi],
                    code
                );
                let d = desc(*f, *m, *a);
                assert_eq!(parse_sampler_name(&name), Some(d));
                assert!(!seen.contains(&d));
                seen.push(d);
            }
        }
    }
    assert_eq!(seen.len(), 16);
}

#[test]
fn rejects_names_that_name_no_sampler() {
    for name in [
        "",
        "sampler_",
        "sampler_l",
        "sampler_ll",
        "sampler_xlr",
        "sampler_lxr",
        "sampler_llx",
        "sampler_llrr",
        "sampler_llmc",
        "sampler_llcbx",
        "Sampler_llr",
        "samplerxllr",
        "tex_llr",
        "sampler_é",
    ] {
        assert_eq!(parse_sampler_name(name), None, "{}", name);
    }
}

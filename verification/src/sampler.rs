use vstd::prelude::*;

verus! {

/// Texel filter of an immutable sampler.
#[derive(Copy, Clone, PartialEq, Eq, Structural, Debug, Hash)]
pub enum TexelFilter {
    Nearest,
    Linear,
}

/// Mipmap filter of an immutable sampler.
#[derive(Copy, Clone, PartialEq, Eq, Structural, Debug, Hash)]
pub enum MipmapMode {
    Nearest,
    Linear,
}

/// Address mode (all three axes) of an immutable sampler.
#[derive(Copy, Clone, PartialEq, Eq, Structural, Debug, Hash)]
pub enum AddressMode {
    Repeat,
    MirroredRepeat,
    ClampToEdge,
    ClampToBorder,
}

/// Description of an immutable sampler, as encoded in a shader binding's name.
#[derive(Copy, Clone, PartialEq, Eq, Structural, Debug, Hash)]
pub struct SamplerDesc {
    pub texel_filter: TexelFilter,
    pub mipmap_mode: MipmapMode,
    pub address_modes: AddressMode,
}

/// The prefix every sampler binding name starts with.
pub open spec fn sampler_name_prefix() -> Seq<char> {
    seq!['s', 'a', 'm', 'p', 'l', 'e', 'r', '_']
}

pub open spec fn texel_filter_code(f: TexelFilter) -> char {
    match f {
        TexelFilter::Nearest => 'n',
        TexelFilter::Linear => 'l',
    }
}

pub open spec fn mipmap_mode_code(m: MipmapMode) -> char {
    match m {
        MipmapMode::Nearest => 'n',
        MipmapMode::Linear => 'l',
    }
}

pub open spec fn address_mode_code(a: AddressMode) -> Seq<char> {
    match a {
        AddressMode::Repeat => seq!['r'],
        AddressMode::MirroredRepeat => seq!['m', 'r'],
        AddressMode::ClampToEdge => seq!['c'],
        AddressMode::ClampToBorder => seq!['c', 'b'],
    }
}

/// The binding name that denotes sampler `d`: `sampler_`, then the texel filter
/// (`n`/`l`), the mipmap mode (`n`/`l`) and the address mode (`r`, `mr`, `c`, `cb`).
pub open spec fn sampler_name(d: SamplerDesc) -> Seq<char> {
    sampler_name_prefix() + seq![texel_filter_code(d.texel_filter), mipmap_mode_code(d.mipmap_mode)]
        + address_mode_code(d.address_modes)
}

/// Two different samplers never share a name.
pub proof fn lemma_sampler_name_injective(d1: SamplerDesc, d2: SamplerDesc)
    requires
        sampler_name(d1) == sampler_name(d2),
    ensures
        d1 == d2,
{
    let n1 = sampler_name(d1);
    let n2 = sampler_name(d2);
    assert(n1[8] == n2[8]);
    assert(n1[9] == n2[9]);
    assert(n1.len() == n2.len());
    assert(n1[10] == n2[10]);
    if n1.len() == 12 {
        assert(n1[11] == n2[11]);
    }
}

/// The characters of `s`, in order.
pub fn chars_of(s: &str) -> (r: Vec<char>)
    ensures
        r@ == s@,
{
    let mut v: Vec<char> = Vec::new();
    for c in it: s.chars()
        invariant
            it.seq() == s@,
            v@ == s@.take(it.index()),
    {
        v.push(c);
        assert(s@.take(it.index() + 1) == s@.take(it.index()).push(c));
    }
    assert(v@ =~= s@);
    v
}

fn texel_filter_from_code(c: char) -> (r: Option<TexelFilter>)
    ensures
        match r {
            Some(f) => texel_filter_code(f) == c,
            None => forall|f: TexelFilter| texel_filter_code(f) != c,
        },
{
    if c == 'n' {
        Some(TexelFilter::Nearest)
    } else if c == 'l' {
        Some(TexelFilter::Linear)
    } else {
        assert forall|f: TexelFilter| texel_filter_code(f) != c by {
            match f {
                TexelFilter::Nearest => {},
                TexelFilter::Linear => {},
            }
        }
        None
    }
}

fn mipmap_mode_from_code(c: char) -> (r: Option<MipmapMode>)
    ensures
        match r {
            Some(m) => mipmap_mode_code(m) == c,
            None => forall|m: MipmapMode| mipmap_mode_code(m) != c,
        },
{
    if c == 'n' {
        Some(MipmapMode::Nearest)
    } else if c == 'l' {
        Some(MipmapMode::Linear)
    } else {
        assert forall|m: MipmapMode| mipmap_mode_code(m) != c by {
            match m {
                MipmapMode::Nearest => {},
                MipmapMode::Linear => {},
            }
        }
        None
    }
}

fn address_mode_from_code(code: &[char]) -> (r: Option<AddressMode>)
    ensures
        match r {
            Some(a) => address_mode_code(a) == code@,
            None => forall|a: AddressMode| address_mode_code(a) != code@,
        },
{
    let r = if code.len() == 1 {
        if code[0] == 'r' {
            Some(AddressMode::Repeat)
        } else if code[0] == 'c' {
            Some(AddressMode::ClampToEdge)
        } else {
            None
        }
    } else if code.len() == 2 {
        if code[0] == 'm' && code[1] == 'r' {
            Some(AddressMode::MirroredRepeat)
        } else if code[0] == 'c' && code[1] == 'b' {
            Some(AddressMode::ClampToBorder)
        } else {
            None
        }
    } else {
        None
    };
    proof {
        match r {
            Some(a) => {
                assert(address_mode_code(a) =~= code@);
            },
            None => {
                assert forall|a: AddressMode| address_mode_code(a) != code@ by {
                    let s = address_mode_code(a);
                    match a {
                        AddressMode::Repeat => { assert(s[0] == 'r'); },
                        AddressMode::MirroredRepeat => { assert(s[0] == 'm' && s[1] == 'r'); },
                        AddressMode::ClampToEdge => { assert(s[0] == 'c'); },
                        AddressMode::ClampToBorder => { assert(s[0] == 'c' && s[1] == 'b'); },
                    }
                }
            },
        }
    }
    r
}

/// Reads the immutable sampler that a sampler binding's name asks for.
/// Returns `None` exactly when the name is not the name of any sampler.
pub fn parse_sampler_name(name: &str) -> (r: Option<SamplerDesc>)
    ensures
        match r {
            Some(d) => name@ == sampler_name(d),
            None => forall|d: SamplerDesc| name@ != #[trigger] sampler_name(d),
        },
{
    let chars = chars_of(name);
    let n = chars.len();
    if n < 11 || n > 12 {
        assert forall|d: SamplerDesc| name@ != #[trigger] sampler_name(d) by {
            assert(sampler_name(d).len() == 10 + address_mode_code(d.address_modes).len());
        }
        return None;
    }
    let prefix = ['s', 'a', 'm', 'p', 'l', 'e', 'r', '_'];
    let mut i: usize = 0;
    while i < 8
        invariant
            n == chars@.len(),
            11 <= n <= 12,
            chars@ == name@,
            prefix@ == sampler_name_prefix(),
            0 <= i <= 8,
            forall|j: int| 0 <= j < i ==> chars@[j] == sampler_name_prefix()[j],
        decreases 8 - i,
    {
        if chars[i] != prefix[i] {
            assert forall|d: SamplerDesc| name@ != #[trigger] sampler_name(d) by {
                assert(sampler_name(d)[i as int] == sampler_name_prefix()[i as int]);
            }
            return None;
        }
        i = i + 1;
    }
    let filter = texel_filter_from_code(chars[8]);
    let mipmap = mipmap_mode_from_code(chars[9]);
    let (_, tail) = chars.as_slice().split_at(10);
    let address = address_mode_from_code(tail);
    let ghost rest = chars@.subrange(10, n as int);
    assert(tail@ == rest);
    match (filter, mipmap, address) {
        (Some(f), Some(m), Some(a)) => {
            let d = SamplerDesc { texel_filter: f, mipmap_mode: m, address_modes: a };
            assert(name@ =~= sampler_name(d)) by {
                assert(chars@ =~= chars@.subrange(0, 10) + rest);
                assert(chars@.subrange(0, 10) =~= sampler_name_prefix() + seq![
                    texel_filter_code(f),
                    mipmap_mode_code(m),
                ]);
            }
            Some(d)
        },
        _ => {
            assert forall|d: SamplerDesc| name@ != #[trigger] sampler_name(d) by {
                let s = sampler_name(d);
                if name@ == s {
                    assert(s[8] == texel_filter_code(d.texel_filter));
                    assert(s[9] == mipmap_mode_code(d.mipmap_mode));
                    assert(s.subrange(10, s.len() as int) =~= address_mode_code(d.address_modes));
                }
            }
            None
        },
    }
}

/// The sampler a binding name denotes, if any.
pub open spec fn sampler_for_name(name: Seq<char>) -> Option<SamplerDesc> {
    if exists|d: SamplerDesc| #[trigger] sampler_name(d) == name {
        Some(choose|d: SamplerDesc| #[trigger] sampler_name(d) == name)
    } else {
        None
    }
}

/// `parse_sampler_name` computes `sampler_for_name`.
pub proof fn lemma_parse_matches_sampler_for_name(name: Seq<char>, r: Option<SamplerDesc>)
    requires
        match r {
            Some(d) => name == sampler_name(d),
            None => forall|d: SamplerDesc| name != #[trigger] sampler_name(d),
        },
    ensures
        r == sampler_for_name(name),
{
    if let Some(d) = r {
        let c = choose|d: SamplerDesc| #[trigger] sampler_name(d) == name;
        lemma_sampler_name_injective(c, d);
    }
}

/// Reading back the name of a sampler gives that sampler.
pub proof fn lemma_sampler_name_round_trip(d: SamplerDesc)
    ensures
        sampler_for_name(sampler_name(d)) == Some(d),
{
    let c = choose|c: SamplerDesc| #[trigger] sampler_name(c) == sampler_name(d);
    lemma_sampler_name_injective(c, d);
}

/// How a sampler's name spells it: `sampler_`, then `n` for a nearest or `l` for
/// a linear texel filter, then `n` for nearest or `l` for linear mipmapping, then
/// `r` (repeat), `mr` (mirrored repeat), `c` (clamp to edge) or `cb` (clamp to
/// border).
pub proof fn lemma_sampler_name_spelling(d: SamplerDesc)
    ensures
        sampler_name(d).subrange(0, 8) == seq!['s', 'a', 'm', 'p', 'l', 'e', 'r', '_'],
        sampler_name(d)[8] == (if d.texel_filter == TexelFilter::Nearest {
            'n'
        } else {
            'l'
        }),
        sampler_name(d)[9] == (if d.mipmap_mode == MipmapMode::Nearest {
            'n'
        } else {
            'l'
        }),
        sampler_name(d).subrange(10, sampler_name(d).len() as int) == match d.address_modes {
            AddressMode::Repeat => seq!['r'],
            AddressMode::MirroredRepeat => seq!['m', 'r'],
            AddressMode::ClampToEdge => seq!['c'],
            AddressMode::ClampToBorder => seq!['c', 'b'],
        },
{
    let n = sampler_name(d);
    assert(n.subrange(0, 8) =~= seq!['s', 'a', 'm', 'p', 'l', 'e', 'r', '_']);
    assert(n.subrange(10, n.len() as int) =~= address_mode_code(d.address_modes));
}

} // verus!

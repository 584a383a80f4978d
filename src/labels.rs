use vstd::prelude::*;
use vstd::string::StringExecFns;

verus! {

/// Label of addresses that no entry names.
pub open spec fn other_label() -> Seq<char> {
    "Other"@
}

/// The label that `entries` gives to `key`: that of the first entry whose
/// address equals it, else "Other".
pub open spec fn label_in(entries: Seq<(Seq<char>, Seq<char>)>, key: Seq<char>) -> Seq<char>
    decreases entries.len(),
{
    if entries.len() == 0 {
        other_label()
    } else if entries[0].0 == key {
        entries[0].1
    } else {
        label_in(entries.drop_first(), key)
    }
}

/// The lower-case form of a string.
pub uninterp spec fn lower_of(s: Seq<char>) -> Seq<char>;

/// Relies on `str::to_lowercase`: the result depends on the characters alone.
#[verifier::external_body]
fn lowercase(s: &str) -> (r: String)
    ensures
        r@ == lower_of(s@),
{
    s.to_lowercase()
}

/// Addresses (lower case) and the labels of the chains that post from them.
pub struct LabelTable {
    pub entries: Vec<(String, String)>,
}

impl LabelTable {
    /// The entries as plain values.
    pub open spec fn view_entries(&self) -> Seq<(Seq<char>, Seq<char>)> {
        self.entries@.map_values(|e: (String, String)| (e.0@, e.1@))
    }

    /// The label of `address`, looked up without regard to case: entry
    /// addresses are lower case, and `address` is lowered before the lookup.
    pub fn identify(&self, address: &str) -> (r: String)
        ensures
            r@ == label_in(self.view_entries(), lower_of(address@)),
    {
        let key = lowercase(address);
        self.label_for(&key)
    }

    /// The label that the entries give to `key`, compared exactly.
    pub fn label_for(&self, key: &String) -> (r: String)
        ensures
            r@ == label_in(self.view_entries(), key@),
    {
        let mut i: usize = 0;
        assert(self.view_entries().skip(0) =~= self.view_entries());
        while i < self.entries.len()
            invariant
                i <= self.entries@.len(),
                label_in(self.view_entries(), key@) == label_in(self.view_entries().skip(i as int), key@),
            decreases self.entries@.len() - i,
        {
            assert(self.view_entries().skip(i as int).drop_first() =~= self.view_entries().skip(i + 1));
            if self.entries[i].0 == *key {
                return self.entries[i].1.clone();
            }
            i = i + 1;
        }
        assert(self.view_entries().skip(i as int) =~= Seq::<(Seq<char>, Seq<char>)>::empty());
        String::from_str("Other")
    }
}

/// Known batch-posting addresses of rollups.
pub open spec fn known_entries() -> Seq<(Seq<char>, Seq<char>)> {
    seq![
        ("0x5050f69a9786f081509234f1a7f4684b5e5b76c9"@, "Base"@),
        ("0xff00000000000000000000000000000000008453"@, "Base"@),
        ("0x6887246668a3b87f54deb3b94ba47a6f63f32985"@, "Optimism"@),
        ("0xc1b634853cb333d3ad8663715b08f41a3aec47cc"@, "Arbitrum"@),
        ("0xa4b10ac61e79ea1e150df70b8dda53391928fd14"@, "Arbitrum"@),
        ("0xa4b1e63cb4901e327597bc35d36fe8a23e4c253f"@, "Arbitrum"@),
        ("0xa1e4380a3b1f749673e270229993ee55f35663b4"@, "Scroll"@),
        ("0xcf2898225ed05be911d3709d9417e86e0b4cfc8f"@, "Scroll"@),
        ("0x4f250b05262240c787a1ee222687c6ec395c628a"@, "Scroll"@),
        ("0xb4a04505a487fcf16232d74ebb76429e232b1f21"@, "Scroll"@),
        ("0x054a47b9e2a22af6c0ce55020238c8fecd7d334b"@, "Scroll"@),
        ("0x415c8893d514f9bc5211d36eeda4183226b84aa7"@, "Starknet"@),
        ("0x2c169dfe5fbba12957bdd0ba47d9cedbfe260ca7"@, "Starknet"@),
        ("0xeb18ea5dedee42e7af378991dfeb719d21c17b4c"@, "Swell Chain"@),
        ("0xaf1e4f6a47af647f87c0ec814d8032c4a4bff145"@, "Zircuit"@),
        ("0xa9268341831efa4937537bc3e9eb36dbece83c7e"@, "zkSync Era"@),
        ("0x3db52ce065f728011ac6732222270b3f2360d919"@, "zkSync Era"@),
        ("0xd19d4b5d358258f05d7b411e21a1460d11b0876f"@, "Linea"@),
        ("0xc70ae19b5feaa5c19f576e621d2bad9771864fe2"@, "Linea"@),
        ("0x65115c6d23274e0a29a63b69130efe901aa52e7a"@, "Hemi"@),
        ("0x77b064f418b27167bd8c6f263a16455e628b56cb"@, "Taiko"@),
        ("0xfc3756dc89ee98b049c1f2b0c8e69f0649e5c3e3"@, "Taiko"@),
        ("0x4b2d036d2c27192549ad5a2f2d9875e1843833de"@, "Abstract"@),
        ("0xdbbe3d8c2d2b22a2611c5a94a9a12c2fcd49eb29"@, "World"@),
        ("0x500d7ea63cf2e501dadaa5feec1fc19fe2aa72ac"@, "Ink"@),
        ("0x98a986ee08bf67c9cfc4de2aaaff2d7f56c0bc47"@, "Blast"@),
        ("0x625726c858dbf78c0125436c943bf4b4be9d9033"@, "Zora"@),
        ("0x99199a22125034c808ff20f377d91187e8050f2e"@, "Mode"@),
        ("0xd1328c9167e0693b689b5aa5a024379d4e437858"@, "Mantle"@),
        ("0xc94c243f8fb37223f3eb77f1e6d55e0f8f9caef4"@, "Metal"@),
        ("0xc94c243f8fb37223f3eb2f7961f7072602a51b8b"@, "Metal"@),
        ("0x3c11c3025ce387d76c2eddf1493ec55a8cc2a0f7"@, "Cyber"@),
        ("0x41b8cd6791de4d8f9e0eda9f185ce1898f0b5b3b"@, "Kroma"@),
        ("0xa8cd7f4c94eb0f15a5d8f5e9f9b4eb9b2e3eb60d"@, "Redstone"@),
        ("0x7f9d9c1bce1062e1077845ea39a0303429600a06"@, "Fraxtal"@),
        ("0xd6c24e78cc77e48c87c246a2e0b7d21ffb7c1c0a"@, "Mint"@),
        ("0x6776be80dbada6a02b5f2095cf13734ac303b8d1"@, "Soneium"@),
        ("0xfbc0dcd6c3518cb529bc1b585db992a7d40005fa"@, "Lighter"@),
        ("0x2f60a5184c63ca94f82a27100643dbabe4f3f7fd"@, "UniChain"@),
        ("0x1ffda89c755f6d4af069897d77ccabb580fd412a"@, "Katana"@),
        ("0xb5bd290ef8ef3840cb866c7a8b7cc9e45fde3ab9"@, "Codex"@),
    ]
}

/// The table of known batch-posting addresses.
pub fn known_labels() -> (r: LabelTable)
    ensures
        r.view_entries() == known_entries(),
{
    let mut t: Vec<(String, String)> = Vec::new();
    t.push((String::from_str("0x5050f69a9786f081509234f1a7f4684b5e5b76c9"), String::from_str("Base")));
    t.push((String::from_str("0xff00000000000000000000000000000000008453"), String::from_str("Base")));
    t.push((String::from_str("0x6887246668a3b87f54deb3b94ba47a6f63f32985"), String::from_str("Optimism")));
    t.push((String::from_str("0xc1b634853cb333d3ad8663715b08f41a3aec47cc"), String::from_str("Arbitrum")));
    t.push((String::from_str("0xa4b10ac61e79ea1e150df70b8dda53391928fd14"), String::from_str("Arbitrum")));
    t.push((String::from_str("0xa4b1e63cb4901e327597bc35d36fe8a23e4c253f"), String::from_str("Arbitrum")));
    t.push((String::from_str("0xa1e4380a3b1f749673e270229993ee55f35663b4"), String::from_str("Scroll")));
    t.push((String::from_str("0xcf2898225ed05be911d3709d9417e86e0b4cfc8f"), String::from_str("Scroll")));
    t.push((String::from_str("0x4f250b05262240c787a1ee222687c6ec395c628a"), String::from_str("Scroll")));
    t.push((String::from_str("0xb4a04505a487fcf16232d74ebb76429e232b1f21"), String::from_str("Scroll")));
    t.push((String::from_str("0x054a47b9e2a22af6c0ce55020238c8fecd7d334b"), String::from_str("Scroll")));
    t.push((String::from_str("0x415c8893d514f9bc5211d36eeda4183226b84aa7"), String::from_str("Starknet")));
    t.push((String::from_str("0x2c169dfe5fbba12957bdd0ba47d9cedbfe260ca7"), String::from_str("Starknet")));
    t.push((String::from_str("0xeb18ea5dedee42e7af378991dfeb719d21c17b4c"), String::from_str("Swell Chain")));
    t.push((String::from_str("0xaf1e4f6a47af647f87c0ec814d8032c4a4bff145"), String::from_str("Zircuit")));
    t.push((String::from_str("0xa9268341831efa4937537bc3e9eb36dbece83c7e"), String::from_str("zkSync Era")));
    t.push((String::from_str("0x3db52ce065f728011ac6732222270b3f2360d919"), String::from_str("zkSync Era")));
    t.push((String::from_str("0xd19d4b5d358258f05d7b411e21a1460d11b0876f"), String::from_str("Linea")));
    t.push((String::from_str("0xc70ae19b5feaa5c19f576e621d2bad9771864fe2"), String::from_str("Linea")));
    t.push((String::from_str("0x65115c6d23274e0a29a63b69130efe901aa52e7a"), String::from_str("Hemi")));
    t.push((String::from_str("0x77b064f418b27167bd8c6f263a16455e628b56cb"), String::from_str("Taiko")));
    t.push((String::from_str("0xfc3756dc89ee98b049c1f2b0c8e69f0649e5c3e3"), String::from_str("Taiko")));
    t.push((String::from_str("0x4b2d036d2c27192549ad5a2f2d9875e1843833de"), String::from_str("Abstract")));
    t.push((String::from_str("0xdbbe3d8c2d2b22a2611c5a94a9a12c2fcd49eb29"), String::from_str("World")));
    t.push((String::from_str("0x500d7ea63cf2e501dadaa5feec1fc19fe2aa72ac"), String::from_str("Ink")));
    t.push((String::from_str("0x98a986ee08bf67c9cfc4de2aaaff2d7f56c0bc47"), String::from_str("Blast")));
    t.push((String::from_str("0x625726c858dbf78c0125436c943bf4b4be9d9033"), String::from_str("Zora")));
    t.push((String::from_str("0x99199a22125034c808ff20f377d91187e8050f2e"), String::from_str("Mode")));
    t.push((String::from_str("0xd1328c9167e0693b689b5aa5a024379d4e437858"), String::from_str("Mantle")));
    t.push((String::from_str("0xc94c243f8fb37223f3eb77f1e6d55e0f8f9caef4"), String::from_str("Metal")));
    t.push((String::from_str("0xc94c243f8fb37223f3eb2f7961f7072602a51b8b"), String::from_str("Metal")));
    t.push((String::from_str("0x3c11c3025ce387d76c2eddf1493ec55a8cc2a0f7"), String::from_str("Cyber")));
    t.push((String::from_str("0x41b8cd6791de4d8f9e0eda9f185ce1898f0b5b3b"), String::from_str("Kroma")));
    t.push((String::from_str("0xa8cd7f4c94eb0f15a5d8f5e9f9b4eb9b2e3eb60d"), String::from_str("Redstone")));
    t.push((String::from_str("0x7f9d9c1bce1062e1077845ea39a0303429600a06"), String::from_str("Fraxtal")));
    t.push((String::from_str("0xd6c24e78cc77e48c87c246a2e0b7d21ffb7c1c0a"), String::from_str("Mint")));
    t.push((String::from_str("0x6776be80dbada6a02b5f2095cf13734ac303b8d1"), String::from_str("Soneium")));
    t.push((String::from_str("0xfbc0dcd6c3518cb529bc1b585db992a7d40005fa"), String::from_str("Lighter")));
    t.push((String::from_str("0x2f60a5184c63ca94f82a27100643dbabe4f3f7fd"), String::from_str("UniChain")));
    t.push((String::from_str("0x1ffda89c755f6d4af069897d77ccabb580fd412a"), String::from_str("Katana")));
    t.push((String::from_str("0xb5bd290ef8ef3840cb866c7a8b7cc9e45fde3ab9"), String::from_str("Codex")));
    let r = LabelTable { entries: t };
    assert(r.view_entries() =~= known_entries());
    r
}

/// The chain that posts from `address`, by the known table; "Other" where it
/// names none.
pub fn identify_chain(address: &str) -> (r: String)
    ensures
        r@ == label_in(known_entries(), lower_of(address@)),
{
    known_labels().identify(address)
}

} // verus!

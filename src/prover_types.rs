use vstd::prelude::*;

verus! {

/// A layer of the proof pipeline, from the base chunk circuit to the outermost
/// bundle compression.
#[derive(Debug, Clone, Copy, PartialEq, Eq, Structural)]
pub enum ProofLayer {
    Layer0,
    Layer1,
    Layer2,
    Layer3,
    Layer4,
    Layer5,
    Layer6,
}

/// The first of `layers`, if any.
pub fn first_layer(layers: &Vec<ProofLayer>) -> (r: Option<ProofLayer>)
    ensures
        layers@.len() == 0 ==> r == None::<ProofLayer>,
        layers@.len() > 0 ==> r == Some(layers@[0]),
{
    if layers.len() == 0 {
        None
    } else {
        Some(layers[0])
    }
}

/// The last of `layers`, if any.
pub fn last_layer(layers: &Vec<ProofLayer>) -> (r: Option<ProofLayer>)
    ensures
        layers@.len() == 0 ==> r == None::<ProofLayer>,
        layers@.len() > 0 ==> r == Some(layers@.last()),
{
    if layers.len() == 0 {
        None
    } else {
        Some(layers[layers.len() - 1])
    }
}

/// Every layer after the first.
pub fn layers_after_first(layers: &Vec<ProofLayer>) -> (r: Vec<ProofLayer>)
    requires
        layers@.len() > 0,
    ensures
        r@ == layers@.drop_first(),
{
    let mut r: Vec<ProofLayer> = Vec::new();
    let mut i: usize = 1;
    while i < layers.len()
        invariant
            1 <= i <= layers.len(),
            r@ == layers@.subrange(1, i as int),
        decreases layers.len() - i,
    {
        r.push(layers[i]);
        i = i + 1;
        assert(r@ =~= layers@.subrange(1, i as int));
    }
    assert(r@ =~= layers@.drop_first());
    r
}

/// The chunk prover, which proves at layers 0, 1 and 2.
#[derive(Debug, Default)]
pub struct ProverTypeChunk;

/// The batch prover, which proves at layers 3 and 4.
#[derive(Debug, Default)]
pub struct ProverTypeBatch<const N_SNARKS: usize>;

/// The bundle prover, which proves at layers 5 and 6.
#[derive(Debug, Default)]
pub struct ProverTypeBundle;

impl ProverTypeChunk {
    pub const NAME: &'static str = "ChunkProver";

    pub open spec fn spec_layers() -> Seq<ProofLayer> {
        seq![ProofLayer::Layer0, ProofLayer::Layer1, ProofLayer::Layer2]
    }

    pub fn layers() -> (r: Vec<ProofLayer>)
        ensures
            r@ == Self::spec_layers(),
    {
        let r = vec![ProofLayer::Layer0, ProofLayer::Layer1, ProofLayer::Layer2];
        assert(r@ =~= Self::spec_layers());
        r
    }

    /// The layer the base circuit is proved at.
    pub fn base_layer() -> (r: ProofLayer)
        ensures
            r == Self::spec_layers()[0],
    {
        let l = Self::layers();
        l[0]
    }

    /// The last compression layer.
    pub fn outermost_layer() -> (r: ProofLayer)
        ensures
            r == Self::spec_layers().last(),
    {
        let l = Self::layers();
        l[l.len() - 1]
    }

    /// The layers at which the previous layer's proof is compressed.
    pub fn compression_layers() -> (r: Vec<ProofLayer>)
        ensures
            r@ == Self::spec_layers().drop_first(),
    {
        layers_after_first(&Self::layers())
    }
}

impl<const N_SNARKS: usize> ProverTypeBatch<N_SNARKS> {
    pub const NAME: &'static str = "BatchProver";

    pub open spec fn spec_layers() -> Seq<ProofLayer> {
        seq![ProofLayer::Layer3, ProofLayer::Layer4]
    }

    pub fn layers() -> (r: Vec<ProofLayer>)
        ensures
            r@ == Self::spec_layers(),
    {
        let r = vec![ProofLayer::Layer3, ProofLayer::Layer4];
        assert(r@ =~= Self::spec_layers());
        r
    }

    /// The layer the base circuit is proved at.
    pub fn base_layer() -> (r: ProofLayer)
        ensures
            r == Self::spec_layers()[0],
    {
        let l = Self::layers();
        l[0]
    }

    /// The last compression layer.
    pub fn outermost_layer() -> (r: ProofLayer)
        ensures
            r == Self::spec_layers().last(),
    {
        let l = Self::layers();
        l[l.len() - 1]
    }

    /// The layers at which the previous layer's proof is compressed.
    pub fn compression_layers() -> (r: Vec<ProofLayer>)
        ensures
            r@ == Self::spec_layers().drop_first(),
    {
        layers_after_first(&Self::layers())
    }
}

impl ProverTypeBundle {
    pub const NAME: &'static str = "BundleProver";

    pub open spec fn spec_layers() -> Seq<ProofLayer> {
        seq![ProofLayer::Layer5, ProofLayer::Layer6]
    }

    pub fn layers() -> (r: Vec<ProofLayer>)
        ensures
            r@ == Self::spec_layers(),
    {
        let r = vec![ProofLayer::Layer5, ProofLayer::Layer6];
        assert(r@ =~= Self::spec_layers());
        r
    }
}

/// A 32-byte hash, as plain bytes.
#[derive(Debug, Clone, Copy, PartialEq, Eq)]
pub struct H256(pub [u8; 32]);

/// What a chunk proof commits to.
#[derive(Debug, Clone, PartialEq, Eq)]
pub struct ChunkInfo {
    pub chain_id: u64,
    pub prev_state_root: H256,
    pub post_state_root: H256,
    pub withdraw_root: H256,
    pub data_hash: H256,
    pub tx_bytes: Vec<u8>,
    pub is_padding: bool,
}

/// Data a batch proof carries for the bundle prover.
#[derive(Debug, Clone, Copy, PartialEq, Eq)]
pub struct BatchProofAuxData {
    pub batch_hash: H256,
}

/// Data a chunk proof carries for the batch prover.
#[derive(Debug, Clone, PartialEq, Eq)]
pub struct ChunkProofAuxData {
    pub chunk_infos: Vec<ChunkInfo>,
}

/// A mock account: an address and a balance.
#[derive(Debug, Clone, Copy, PartialEq, Eq)]
pub struct MockAccount {
    pub address: [u8; 20],
    pub balance: u128,
}

/// A mock transaction between two addresses.
#[derive(Debug, Clone, Copy, PartialEq, Eq)]
pub struct MockTransaction {
    pub from: [u8; 20],
    pub to: Option<[u8; 20]>,
    pub value: u128,
    pub nonce: u64,
}

/// Makes the first transaction go from the second account to the first one.
pub fn tx_from_1_to_0(txs: &mut Vec<MockTransaction>, accs: &[MockAccount; 2])
    requires
        old(txs)@.len() > 0,
    ensures
        final(txs)@.len() == old(txs)@.len(),
        final(txs)@[0].from == accs@[1].address,
        final(txs)@[0].to == Some(accs@[0].address),
        final(txs)@[0].value == old(txs)@[0].value,
        final(txs)@[0].nonce == old(txs)@[0].nonce,
        forall|i: int| 0 < i < old(txs)@.len() ==> #[trigger] final(txs)@[i] == old(txs)@[i],
{
    let mut t = txs[0];
    t.from = accs[1].address;
    t.to = Some(accs[0].address);
    txs.set(0, t);
}

} // verus!

//! The binary model: classifier structures and the little-endian reader.
//!
//! Network weights, biases and thresholds are IEEE-754 binary32 on the
//! wire; the model stores them as their 32 raw bits, leaving all
//! floating-point evaluation to the caller. The reader's contract states
//! byte-exactly which streams parse and what they parse to.

use vstd::prelude::*;

verus! {

/// Why a model stream was rejected.
#[derive(Clone, Copy, Debug, PartialEq, Eq, Structural)]
pub enum ModelError {
    /// The stream ended before the grammar was complete.
    UnexpectedEof,
    /// A classifier kind id other than the two known ones.
    UnknownClassifierKind,
    /// A negative element count.
    NegativeCount,
    /// A LAB base classifier count that is not a multiple of the fixed
    /// group size of ten.
    UnalignedLabGroup,
}

/// The two classifier kinds of the cascade, by wire id: 0 is
/// LAB-boosted, 1 is SURF-MLP.
#[derive(Clone, Copy, Debug, Hash, PartialEq, Eq, Structural)]
pub enum ClassifierKind {
    LabBoosted,
    SurfMlp,
}

impl ClassifierKind {
    pub fn from(id: i32) -> (r: Option<ClassifierKind>)
        ensures
            r == (if id == 0 {
                Some(ClassifierKind::LabBoosted)
            } else if id == 1 {
                Some(ClassifierKind::SurfMlp)
            } else {
                None::<ClassifierKind>
            }),
    {
        match id {
            0 => Some(ClassifierKind::LabBoosted),
            1 => Some(ClassifierKind::SurfMlp),
            _ => None,
        }
    }
}

/// One LAB base classifier: a weight table of `num_bin + 1` binary32
/// values (as raw bits) and a cumulative threshold (as raw bits).
pub struct LabBaseClassifier {
    pub weights: Vec<u32>,
    pub thresh: u32,
}

impl View for LabBaseClassifier {
    type V = (Seq<u32>, u32);

    open spec fn view(&self) -> (Seq<u32>, u32) {
        (self.weights@, self.thresh)
    }
}

/// A LAB-boosted classifier: probe sites and base classifiers.
pub struct LabBoostedClassifier {
    pub features: Vec<(i32, i32)>,
    pub base_classifiers: Vec<LabBaseClassifier>,
}

/// The mathematical content of a LAB-boosted classifier.
pub ghost struct LabSpec {
    pub features: Seq<(i32, i32)>,
    pub bases: Seq<(Seq<u32>, u32)>,
}

impl View for LabBoostedClassifier {
    type V = LabSpec;

    open spec fn view(&self) -> LabSpec {
        LabSpec {
            features: self.features@,
            bases: self.base_classifiers@.map_values(|b: LabBaseClassifier| b@),
        }
    }
}

impl LabBoostedClassifier {
    pub fn new() -> (r: Self)
        ensures
            r@.features.len() == 0,
            r@.bases.len() == 0,
    {
        let r = LabBoostedClassifier { features: Vec::new(), base_classifiers: Vec::new() };
        proof {
            assert(r@.bases =~= Seq::<(Seq<u32>, u32)>::empty());
        }
        r
    }

    pub fn add_feature(&mut self, x: i32, y: i32)
        ensures
            final(self)@.features == old(self)@.features.push((x, y)),
            final(self)@.bases == old(self)@.bases,
    {
        self.features.push((x, y));
        proof {
            assert(final(self)@.bases =~= old(self)@.bases);
        }
    }

    pub fn add_base_classifier(&mut self, weights: Vec<u32>, thresh: u32)
        ensures
            final(self)@.features == old(self)@.features,
            final(self)@.bases =~= old(self)@.bases.push((weights@, thresh)),
    {
        let ghost w = weights@;
        self.base_classifiers.push(LabBaseClassifier { weights, thresh });
        proof {
            assert(final(self)@.bases =~= old(self)@.bases.push((w, thresh)));
        }
    }
}

/// One dense layer: `output_dim` rows of `input_dim` weights plus a
/// bias per row, all binary32 bits; the output layer applies a sigmoid,
/// every other layer a ReLU.
pub struct MlpLayer {
    pub input_dim: usize,
    pub output_dim: usize,
    pub weights: Vec<u32>,
    pub biases: Vec<u32>,
    pub sigmoid_output: bool,
}

/// The mathematical content of one dense layer.
pub ghost struct LayerSpec {
    pub input_dim: int,
    pub output_dim: int,
    pub weights: Seq<u32>,
    pub biases: Seq<u32>,
    pub sigmoid_output: bool,
}

impl View for MlpLayer {
    type V = LayerSpec;

    open spec fn view(&self) -> LayerSpec {
        LayerSpec {
            input_dim: self.input_dim as int,
            output_dim: self.output_dim as int,
            weights: self.weights@,
            biases: self.biases@,
            sigmoid_output: self.sigmoid_output,
        }
    }
}

/// A SURF-MLP classifier: the pooled features it concatenates, the
/// positive-class threshold (binary32 bits) and the dense layers.
pub struct SurfMlpClassifier {
    pub feature_ids: Vec<i32>,
    pub thresh: u32,
    pub layers: Vec<MlpLayer>,
}

/// The mathematical content of a SURF-MLP classifier.
pub ghost struct SurfSpec {
    pub feature_ids: Seq<i32>,
    pub thresh: u32,
    pub layers: Seq<LayerSpec>,
}

impl View for SurfMlpClassifier {
    type V = SurfSpec;

    open spec fn view(&self) -> SurfSpec {
        SurfSpec {
            feature_ids: self.feature_ids@,
            thresh: self.thresh,
            layers: self.layers@.map_values(|l: MlpLayer| l@),
        }
    }
}

impl SurfMlpClassifier {
    pub fn new() -> (r: Self)
        ensures
            r@.feature_ids.len() == 0,
            r@.thresh == 0,
            r@.layers.len() == 0,
    {
        let r = SurfMlpClassifier { feature_ids: Vec::new(), thresh: 0, layers: Vec::new() };
        proof {
            assert(r@.layers =~= Seq::<LayerSpec>::empty());
        }
        r
    }

    pub fn add_feature_id(&mut self, feature_id: i32)
        ensures
            final(self)@.feature_ids == old(self)@.feature_ids.push(feature_id),
            final(self)@.thresh == old(self)@.thresh,
            final(self)@.layers == old(self)@.layers,
    {
        self.feature_ids.push(feature_id);
        proof {
            assert(final(self)@.layers =~= old(self)@.layers);
        }
    }

    pub fn set_threshold(&mut self, thresh: u32)
        ensures
            final(self)@.feature_ids == old(self)@.feature_ids,
            final(self)@.thresh == thresh,
            final(self)@.layers == old(self)@.layers,
    {
        self.thresh = thresh;
        proof {
            assert(final(self)@.layers =~= old(self)@.layers);
        }
    }

    /// Append a hidden (ReLU) layer.
    pub fn add_layer(&mut self, input_dim: usize, output_dim: usize, weights: Vec<u32>, biases: Vec<u32>)
        ensures
            final(self)@.feature_ids == old(self)@.feature_ids,
            final(self)@.thresh == old(self)@.thresh,
            final(self)@.layers =~= old(self)@.layers.push(
                LayerSpec {
                    input_dim: input_dim as int,
                    output_dim: output_dim as int,
                    weights: weights@,
                    biases: biases@,
                    sigmoid_output: false,
                },
            ),
    {
        let ghost w = weights@;
        let ghost b = biases@;
        self.layers.push(
            MlpLayer { input_dim, output_dim, weights, biases, sigmoid_output: false },
        );
        proof {
            assert(final(self)@.layers =~= old(self)@.layers.push(
                LayerSpec {
                    input_dim: input_dim as int,
                    output_dim: output_dim as int,
                    weights: w,
                    biases: b,
                    sigmoid_output: false,
                },
            ));
        }
    }

    /// Append the output (sigmoid) layer.
    pub fn add_output_layer(
        &mut self,
        input_dim: usize,
        output_dim: usize,
        weights: Vec<u32>,
        biases: Vec<u32>,
    )
        ensures
            final(self)@.feature_ids == old(self)@.feature_ids,
            final(self)@.thresh == old(self)@.thresh,
            final(self)@.layers =~= old(self)@.layers.push(
                LayerSpec {
                    input_dim: input_dim as int,
                    output_dim: output_dim as int,
                    weights: weights@,
                    biases: biases@,
                    sigmoid_output: true,
                },
            ),
    {
        let ghost w = weights@;
        let ghost b = biases@;
        self.layers.push(
            MlpLayer { input_dim, output_dim, weights, biases, sigmoid_output: true },
        );
        proof {
            assert(final(self)@.layers =~= old(self)@.layers.push(
                LayerSpec {
                    input_dim: input_dim as int,
                    output_dim: output_dim as int,
                    weights: w,
                    biases: b,
                    sigmoid_output: true,
                },
            ));
        }
    }
}

/// A classifier of either kind.
pub enum Classifier {
    SurfMlp(SurfMlpClassifier),
    LabBoosted(LabBoostedClassifier),
}

pub ghost enum ClassifierSpec {
    SurfMlp(SurfSpec),
    LabBoosted(LabSpec),
}

impl View for Classifier {
    type V = ClassifierSpec;

    open spec fn view(&self) -> ClassifierSpec {
        match self {
            Classifier::SurfMlp(c) => ClassifierSpec::SurfMlp(c@),
            Classifier::LabBoosted(c) => ClassifierSpec::LabBoosted(c@),
        }
    }
}

/// A parsed model: the flat classifier list, the proposal-bucket routing
/// table, the per-hierarchy classifier counts and the per-classifier
/// stage counts.
pub struct Model {
    pub classifiers: Vec<Classifier>,
    pub wnd_src_id: Vec<Vec<i32>>,
    pub hierarchy_sizes: Vec<i32>,
    pub num_stages: Vec<i32>,
}

pub ghost struct ModelSpec {
    pub classifiers: Seq<ClassifierSpec>,
    pub wnd_src_id: Seq<Seq<i32>>,
    pub hierarchy_sizes: Seq<i32>,
    pub num_stages: Seq<i32>,
}

impl View for Model {
    type V = ModelSpec;

    open spec fn view(&self) -> ModelSpec {
        ModelSpec {
            classifiers: self.classifiers@.map_values(|c: Classifier| c@),
            wnd_src_id: self.wnd_src_id@.map_values(|v: Vec<i32>| v@),
            hierarchy_sizes: self.hierarchy_sizes@,
            num_stages: self.num_stages@,
        }
    }
}

impl Model {
    pub fn get_classifiers(&self) -> (r: &Vec<Classifier>)
        ensures
            r == self.classifiers,
    {
        &self.classifiers
    }

    pub fn get_wnd_src(&self, id: usize) -> (r: &Vec<i32>)
        requires
            id < self.wnd_src_id@.len(),
        ensures
            r@ == self@.wnd_src_id[id as int],
    {
        &self.wnd_src_id[id]
    }

    pub fn get_hierarchy_count(&self) -> (r: usize)
        ensures
            r == self@.hierarchy_sizes.len(),
    {
        self.hierarchy_sizes.len()
    }

    pub fn get_num_stage(&self, id: usize) -> (r: i32)
        requires
            id < self.num_stages@.len(),
        ensures
            r == self@.num_stages[id as int],
    {
        self.num_stages[id]
    }

    pub fn get_hierarchy_size(&self, hierarchy_index: usize) -> (r: i32)
        requires
            hierarchy_index < self.hierarchy_sizes@.len(),
        ensures
            r == self@.hierarchy_sizes[hierarchy_index as int],
    {
        self.hierarchy_sizes[hierarchy_index]
    }
}


/// Four little-endian bytes read as an unsigned 32-bit value.
pub open spec fn le_u32_at(b: Seq<u8>, pos: int) -> u32 {
    (b[pos] + b[pos + 1] * 0x100 + b[pos + 2] * 0x1_0000 + b[pos + 3] * 0x100_0000) as u32
}

/// Four little-endian bytes read as a signed 32-bit value.
pub open spec fn le_i32_at(b: Seq<u8>, pos: int) -> i32 {
    if le_u32_at(b, pos) >= 0x8000_0000 {
        (le_u32_at(b, pos) - 0x1_0000_0000) as i32
    } else {
        le_u32_at(b, pos) as i32
    }
}

/// `n` more bytes are available at `pos`.
pub open spec fn can_read(b: Seq<u8>, pos: int, n: int) -> bool {
    0 <= pos && pos + n <= b.len()
}

/// Prepend an already-parsed prefix to a parse result.
pub open spec fn with_prefix<T>(pre: Seq<T>, r: Result<(Seq<T>, int), ModelError>) -> Result<
    (Seq<T>, int),
    ModelError,
> {
    match r {
        Ok((rest, p)) => Ok((pre + rest, p)),
        Err(e) => Err(e),
    }
}

/// `n` consecutive signed 32-bit values.
pub open spec fn parse_i32s(b: Seq<u8>, pos: int, n: nat) -> Result<(Seq<i32>, int), ModelError>
    decreases n,
{
    if n == 0 {
        Ok((Seq::empty(), pos))
    } else if can_read(b, pos, 4) {
        match parse_i32s(b, pos + 4, (n - 1) as nat) {
            Ok((rest, p)) => Ok((seq![le_i32_at(b, pos)] + rest, p)),
            Err(e) => Err(e),
        }
    } else {
        Err(ModelError::UnexpectedEof)
    }
}

/// `n` consecutive 32-bit words (binary32 values kept as raw bits).
pub open spec fn parse_u32s(b: Seq<u8>, pos: int, n: nat) -> Result<(Seq<u32>, int), ModelError>
    decreases n,
{
    if n == 0 {
        Ok((Seq::empty(), pos))
    } else if can_read(b, pos, 4) {
        match parse_u32s(b, pos + 4, (n - 1) as nat) {
            Ok((rest, p)) => Ok((seq![le_u32_at(b, pos)] + rest, p)),
            Err(e) => Err(e),
        }
    } else {
        Err(ModelError::UnexpectedEof)
    }
}

/// `n` consecutive pairs of signed 32-bit values.
pub open spec fn parse_pairs(b: Seq<u8>, pos: int, n: nat) -> Result<
    (Seq<(i32, i32)>, int),
    ModelError,
>
    decreases n,
{
    if n == 0 {
        Ok((Seq::empty(), pos))
    } else if can_read(b, pos, 8) {
        match parse_pairs(b, pos + 8, (n - 1) as nat) {
            Ok((rest, p)) => Ok((seq![(le_i32_at(b, pos), le_i32_at(b, pos + 4))] + rest, p)),
            Err(e) => Err(e),
        }
    } else {
        Err(ModelError::UnexpectedEof)
    }
}

/// `n` consecutive rows of `m` 32-bit words each.
pub open spec fn parse_rows(b: Seq<u8>, pos: int, n: nat, m: nat) -> Result<
    (Seq<Seq<u32>>, int),
    ModelError,
>
    decreases n,
{
    if n == 0 {
        Ok((Seq::empty(), pos))
    } else {
        match parse_u32s(b, pos, m) {
            Ok((row, p1)) => match parse_rows(b, p1, (n - 1) as nat, m) {
                Ok((rest, p2)) => Ok((seq![row] + rest, p2)),
                Err(e) => Err(e),
            },
            Err(e) => Err(e),
        }
    }
}

/// A cursor over a model byte stream.
pub struct ModelReader<'a> {
    pub bytes: &'a [u8],
    pub pos: usize,
}

impl<'a> ModelReader<'a> {
    /// The cursor never passes the end of the stream.
    pub open spec fn wf(&self) -> bool {
        self.pos <= self.bytes@.len()
    }

    pub fn new(bytes: &'a [u8]) -> (r: ModelReader<'a>)
        ensures
            r.wf(),
            r.bytes@ == bytes@,
            r.pos == 0,
    {
        ModelReader { bytes, pos: 0 }
    }

    fn read_i32(&mut self) -> (r: Result<i32, ModelError>)
        requires
            old(self).wf(),
        ensures
            final(self).wf(),
            final(self).bytes == old(self).bytes,
            match r {
                Ok(v) => can_read(old(self).bytes@, old(self).pos as int, 4) && v == le_i32_at(
                    old(self).bytes@,
                    old(self).pos as int,
                ) && final(self).pos == old(self).pos + 4,
                Err(e) => e == ModelError::UnexpectedEof && !can_read(
                    old(self).bytes@,
                    old(self).pos as int,
                    4,
                ) && final(self).pos == old(self).pos,
            },
    {
        match self.read_u32() {
            Ok(u) => {
                let v: i32 = if u >= 0x8000_0000 {
                    ((u as i64) - 0x1_0000_0000i64) as i32
                } else {
                    u as i32
                };
                Ok(v)
            },
            Err(e) => Err(e),
        }
    }

    fn read_u32(&mut self) -> (r: Result<u32, ModelError>)
        requires
            old(self).wf(),
        ensures
            final(self).wf(),
            final(self).bytes == old(self).bytes,
            match r {
                Ok(v) => can_read(old(self).bytes@, old(self).pos as int, 4) && v == le_u32_at(
                    old(self).bytes@,
                    old(self).pos as int,
                ) && final(self).pos == old(self).pos + 4,
                Err(e) => e == ModelError::UnexpectedEof && !can_read(
                    old(self).bytes@,
                    old(self).pos as int,
                    4,
                ) && final(self).pos == old(self).pos,
            },
    {
        if self.bytes.len() - self.pos >= 4 {
            let b0 = self.bytes[self.pos] as u32;
            let b1 = self.bytes[self.pos + 1] as u32;
            let b2 = self.bytes[self.pos + 2] as u32;
            let b3 = self.bytes[self.pos + 3] as u32;
            let v = b0 + b1 * 0x100 + b2 * 0x1_0000 + b3 * 0x100_0000;
            self.pos = self.pos + 4;
            Ok(v)
        } else {
            Err(ModelError::UnexpectedEof)
        }
    }

    #[verifier::loop_isolation(false)]
    fn read_i32s(&mut self, n: usize) -> (r: Result<Vec<i32>, ModelError>)
        requires
            old(self).wf(),
        ensures
            final(self).wf(),
            final(self).bytes == old(self).bytes,
            match r {
                Ok(v) => parse_i32s(old(self).bytes@, old(self).pos as int, n as nat) == Ok::<
                    _,
                    ModelError,
                >((v@, final(self).pos as int)),
                Err(e) => parse_i32s(old(self).bytes@, old(self).pos as int, n as nat) == Err::<
                    (Seq<i32>, int),
                    _,
                >(e),
            },
    {
        let ghost b = self.bytes@;
        let ghost pos0 = self.pos as int;
        let mut acc: Vec<i32> = Vec::new();
        let mut i: usize = 0;
        while i < n
            invariant
                i <= n,
                self.wf(),
                self.bytes == old(self).bytes,
                acc@.len() == i,
                parse_i32s(b, pos0, n as nat) == with_prefix(
                    acc@,
                    parse_i32s(b, self.pos as int, (n - i) as nat),
                ),
            decreases n - i,
        {
            let ghost pre = acc@;
            let ghost pcur = self.pos as int;
            match self.read_i32() {
                Ok(v) => {
                    acc.push(v);
                    proof {
                        assert(parse_i32s(b, pcur, (n - i) as nat) == (match parse_i32s(
                            b,
                            pcur + 4,
                            (n - i - 1) as nat,
                        ) {
                            Ok((rest, p)) => Ok::<_, ModelError>((seq![v] + rest, p)),
                            Err(e) => Err(e),
                        }));
                        match parse_i32s(b, pcur + 4, (n - i - 1) as nat) {
                            Ok((rest, p)) => {
                                assert(pre + (seq![v] + rest) =~= acc@ + rest);
                            },
                            Err(_) => {},
                        }
                    }
                    i += 1;
                },
                Err(e) => {
                    return Err(e);
                },
            }
        }
        Ok(acc)
    }

    #[verifier::loop_isolation(false)]
    fn read_u32s(&mut self, n: usize) -> (r: Result<Vec<u32>, ModelError>)
        requires
            old(self).wf(),
        ensures
            final(self).wf(),
            final(self).bytes == old(self).bytes,
            match r {
                Ok(v) => parse_u32s(old(self).bytes@, old(self).pos as int, n as nat) == Ok::<
                    _,
                    ModelError,
                >((v@, final(self).pos as int)),
                Err(e) => parse_u32s(old(self).bytes@, old(self).pos as int, n as nat) == Err::<
                    (Seq<u32>, int),
                    _,
                >(e),
            },
    {
        let ghost b = self.bytes@;
        let ghost pos0 = self.pos as int;
        let mut acc: Vec<u32> = Vec::new();
        let mut i: usize = 0;
        while i < n
            invariant
                i <= n,
                self.wf(),
                self.bytes == old(self).bytes,
                acc@.len() == i,
                parse_u32s(b, pos0, n as nat) == with_prefix(
                    acc@,
                    parse_u32s(b, self.pos as int, (n - i) as nat),
                ),
            decreases n - i,
        {
            let ghost pre = acc@;
            let ghost pcur = self.pos as int;
            match self.read_u32() {
                Ok(v) => {
                    acc.push(v);
                    proof {
                        assert(parse_u32s(b, pcur, (n - i) as nat) == (match parse_u32s(
                            b,
                            pcur + 4,
                            (n - i - 1) as nat,
                        ) {
                            Ok((rest, p)) => Ok::<_, ModelError>((seq![v] + rest, p)),
                            Err(e) => Err(e),
                        }));
                        match parse_u32s(b, pcur + 4, (n - i - 1) as nat) {
                            Ok((rest, p)) => {
                                assert(pre + (seq![v] + rest) =~= acc@ + rest);
                            },
                            Err(_) => {},
                        }
                    }
                    i += 1;
                },
                Err(e) => {
                    return Err(e);
                },
            }
        }
        Ok(acc)
    }
}


/// A LAB-boosted classifier record: counts, probe sites, thresholds and
/// weight tables.
pub open spec fn parse_lab(b: Seq<u8>, pos: int) -> Result<(LabSpec, int), ModelError> {
    if !can_read(b, pos, 8) {
        Err(ModelError::UnexpectedEof)
    } else {
        let nb = le_i32_at(b, pos);
        let nbin = le_i32_at(b, pos + 4);
        if nb < 0 || nbin < 0 {
            Err(ModelError::NegativeCount)
        } else if nb as int % 10 != 0 {
            Err(ModelError::UnalignedLabGroup)
        } else {
            match parse_pairs(b, pos + 8, nb as nat) {
                Ok((features, p1)) => match parse_u32s(b, p1, nb as nat) {
                    Ok((threshes, p2)) => match parse_rows(b, p2, nb as nat, (nbin + 1) as nat) {
                        Ok((rows, p3)) => Ok(
                            (
                                LabSpec {
                                    features,
                                    bases: Seq::new(nb as nat, |i: int| (rows[i], threshes[i])),
                                },
                                p3,
                            ),
                        ),
                        Err(e) => Err(e),
                    },
                    Err(e) => Err(e),
                },
                Err(e) => Err(e),
            }
        }
    }
}

/// The dense layers of a SURF-MLP record; the last parsed layer is the
/// sigmoid output layer.
pub open spec fn parse_layers(b: Seq<u8>, pos: int, k: nat, in_dim: int) -> Result<
    (Seq<LayerSpec>, int),
    ModelError,
>
    decreases k,
{
    if k == 0 {
        Ok((Seq::empty(), pos))
    } else if !can_read(b, pos, 4) {
        Err(ModelError::UnexpectedEof)
    } else {
        let out_dim = le_i32_at(b, pos);
        if out_dim < 0 {
            Err(ModelError::NegativeCount)
        } else {
            match parse_u32s(b, pos + 4, (in_dim * out_dim) as nat) {
                Ok((ws, p1)) => match parse_u32s(b, p1, out_dim as nat) {
                    Ok((bs, p2)) => match parse_layers(b, p2, (k - 1) as nat, out_dim as int) {
                        Ok((rest, p3)) => Ok(
                            (
                                seq![
                                    LayerSpec {
                                        input_dim: in_dim,
                                        output_dim: out_dim as int,
                                        weights: ws,
                                        biases: bs,
                                        sigmoid_output: k == 1,
                                    },
                                ] + rest,
                                p3,
                            ),
                        ),
                        Err(e) => Err(e),
                    },
                    Err(e) => Err(e),
                },
                Err(e) => Err(e),
            }
        }
    }
}

/// A SURF-MLP classifier record: layer and feature counts, feature ids,
/// threshold, input dimension and the layers.
pub open spec fn parse_surf(b: Seq<u8>, pos: int) -> Result<(SurfSpec, int), ModelError> {
    if !can_read(b, pos, 8) {
        Err(ModelError::UnexpectedEof)
    } else {
        let num_layer = le_i32_at(b, pos);
        let num_feat = le_i32_at(b, pos + 4);
        if num_layer < 0 || num_feat < 0 {
            Err(ModelError::NegativeCount)
        } else {
            match parse_i32s(b, pos + 8, num_feat as nat) {
                Ok((fids, p1)) => if !can_read(b, p1, 8) {
                    Err(ModelError::UnexpectedEof)
                } else {
                    let thresh = le_u32_at(b, p1);
                    let in_dim = le_i32_at(b, p1 + 4);
                    if in_dim < 0 {
                        Err(ModelError::NegativeCount)
                    } else {
                        let k: nat = if num_layer >= 1 {
                            (num_layer - 1) as nat
                        } else {
                            0
                        };
                        match parse_layers(b, p1 + 8, k, in_dim as int) {
                            Ok((layers, p2)) => Ok(
                                (SurfSpec { feature_ids: fids, thresh, layers }, p2),
                            ),
                            Err(e) => Err(e),
                        }
                    }
                },
                Err(e) => Err(e),
            }
        }
    }
}

/// One classifier record: a kind id followed by the record of that kind.
pub open spec fn parse_classifier(b: Seq<u8>, pos: int) -> Result<(ClassifierSpec, int), ModelError> {
    if !can_read(b, pos, 4) {
        Err(ModelError::UnexpectedEof)
    } else {
        let kind = le_i32_at(b, pos);
        if kind == 0 {
            match parse_lab(b, pos + 4) {
                Ok((l, p)) => Ok((ClassifierSpec::LabBoosted(l), p)),
                Err(e) => Err(e),
            }
        } else if kind == 1 {
            match parse_surf(b, pos + 4) {
                Ok((c, p)) => Ok((ClassifierSpec::SurfMlp(c), p)),
                Err(e) => Err(e),
            }
        } else {
            Err(ModelError::UnknownClassifierKind)
        }
    }
}

/// `n` consecutive classifier records.
pub open spec fn parse_stages(b: Seq<u8>, pos: int, n: nat) -> Result<
    (Seq<ClassifierSpec>, int),
    ModelError,
>
    decreases n,
{
    if n == 0 {
        Ok((Seq::empty(), pos))
    } else {
        match parse_classifier(b, pos) {
            Ok((c, p1)) => match parse_stages(b, p1, (n - 1) as nat) {
                Ok((rest, p2)) => Ok((seq![c] + rest, p2)),
                Err(e) => Err(e),
            },
            Err(e) => Err(e),
        }
    }
}

/// One hierarchy member: its stage count, that many classifier records,
/// and its proposal-source list (absent when the count is not positive).
pub open spec fn parse_member(b: Seq<u8>, pos: int) -> Result<
    ((Seq<ClassifierSpec>, i32, Seq<i32>), int),
    ModelError,
> {
    if !can_read(b, pos, 4) {
        Err(ModelError::UnexpectedEof)
    } else {
        let num_stage = le_i32_at(b, pos);
        if num_stage < 0 {
            Err(ModelError::NegativeCount)
        } else {
            match parse_stages(b, pos + 4, num_stage as nat) {
                Ok((stages, p1)) => if !can_read(b, p1, 4) {
                    Err(ModelError::UnexpectedEof)
                } else {
                    let num_wnd = le_i32_at(b, p1);
                    if num_wnd > 0 {
                        match parse_i32s(b, p1 + 4, num_wnd as nat) {
                            Ok((wnd, p2)) => Ok(((stages, num_stage, wnd), p2)),
                            Err(e) => Err(e),
                        }
                    } else {
                        Ok(((stages, num_stage, Seq::empty()), p1 + 4))
                    }
                },
                Err(e) => Err(e),
            }
        }
    }
}

/// `n` consecutive hierarchy members, concatenated.
pub open spec fn parse_members(b: Seq<u8>, pos: int, n: nat) -> Result<
    ((Seq<ClassifierSpec>, Seq<i32>, Seq<Seq<i32>>), int),
    ModelError,
>
    decreases n,
{
    if n == 0 {
        Ok(((Seq::empty(), Seq::empty(), Seq::empty()), pos))
    } else {
        match parse_member(b, pos) {
            Ok(((stages, ns, wnd), p1)) => match parse_members(b, p1, (n - 1) as nat) {
                Ok(((cs, nss, wnds), p2)) => Ok(
                    ((stages + cs, seq![ns] + nss, seq![wnd] + wnds), p2),
                ),
                Err(e) => Err(e),
            },
            Err(e) => Err(e),
        }
    }
}

/// `n` consecutive hierarchies: each a member count followed by that
/// many members.
pub open spec fn parse_hierarchies(b: Seq<u8>, pos: int, n: nat) -> Result<
    ((Seq<ClassifierSpec>, Seq<i32>, Seq<Seq<i32>>, Seq<i32>), int),
    ModelError,
>
    decreases n,
{
    if n == 0 {
        Ok(((Seq::empty(), Seq::empty(), Seq::empty(), Seq::empty()), pos))
    } else if !can_read(b, pos, 4) {
        Err(ModelError::UnexpectedEof)
    } else {
        let size = le_i32_at(b, pos);
        if size < 0 {
            Err(ModelError::NegativeCount)
        } else {
            match parse_members(b, pos + 4, size as nat) {
                Ok(((cs, nss, wnds), p1)) => match parse_hierarchies(b, p1, (n - 1) as nat) {
                    Ok(((cs2, nss2, wnds2, sizes2), p2)) => Ok(
                        ((cs + cs2, nss + nss2, wnds + wnds2, seq![size] + sizes2), p2),
                    ),
                    Err(e) => Err(e),
                },
                Err(e) => Err(e),
            }
        }
    }
}

/// A whole model stream: the hierarchy count followed by the
/// hierarchies. Trailing bytes are ignored.
pub open spec fn parse_model(b: Seq<u8>, pos: int) -> Result<(ModelSpec, int), ModelError> {
    if !can_read(b, pos, 4) {
        Err(ModelError::UnexpectedEof)
    } else {
        let nh = le_i32_at(b, pos);
        if nh < 0 {
            Err(ModelError::NegativeCount)
        } else {
            match parse_hierarchies(b, pos + 4, nh as nat) {
                Ok(((cs, nss, wnds, sizes), p)) => Ok(
                    (
                        ModelSpec {
                            classifiers: cs,
                            wnd_src_id: wnds,
                            hierarchy_sizes: sizes,
                            num_stages: nss,
                        },
                        p,
                    ),
                ),
                Err(e) => Err(e),
            }
        }
    }
}

/// A successful word-vector parse yields exactly `n` words.
proof fn lemma_parse_u32s_len(b: Seq<u8>, pos: int, n: nat)
    ensures
        parse_u32s(b, pos, n) matches Ok(t) ==> t.0.len() == n,
    decreases n,
{
    if n > 0 && can_read(b, pos, 4) {
        lemma_parse_u32s_len(b, pos + 4, (n - 1) as nat);
    }
}

/// Streams too short for `n` more words fail with an end-of-file error.
proof fn lemma_parse_u32s_eof(b: Seq<u8>, pos: int, n: nat)
    requires
        0 <= pos,
        pos + 4 * n > b.len(),
        n > 0,
    ensures
        parse_u32s(b, pos, n) == Err::<(Seq<u32>, int), ModelError>(ModelError::UnexpectedEof),
    decreases n,
{
    if can_read(b, pos, 4) {
        lemma_parse_u32s_eof(b, pos + 4, (n - 1) as nat);
    }
}


impl<'a> ModelReader<'a> {
    /// Read one LAB-boosted classifier record.
    #[verifier::loop_isolation(false)]
    #[verifier::spinoff_prover]
    fn read_lab(&mut self) -> (r: Result<LabBoostedClassifier, ModelError>)
        requires
            old(self).wf(),
        ensures
            final(self).wf(),
            final(self).bytes == old(self).bytes,
            match r {
                Ok(c) => parse_lab(old(self).bytes@, old(self).pos as int) == Ok::<_, ModelError>(
                    (c@, final(self).pos as int),
                ),
                Err(e) => parse_lab(old(self).bytes@, old(self).pos as int) == Err::<
                    (LabSpec, int),
                    _,
                >(e),
            },
    {
        let ghost b = self.bytes@;
        let ghost pos0 = self.pos as int;
        let nb = match self.read_i32() {
            Ok(v) => v,
            Err(e) => {
                return Err(e);
            },
        };
        let nbin = match self.read_i32() {
            Ok(v) => v,
            Err(e) => {
                return Err(e);
            },
        };
        if nb < 0 || nbin < 0 {
            return Err(ModelError::NegativeCount);
        }
        if nb % 10 != 0 {
            return Err(ModelError::UnalignedLabGroup);
        }
        let nbu = nb as usize;

        let mut classifier = LabBoostedClassifier::new();
        let ghost pos_pairs = self.pos as int;
        let mut i: usize = 0;
        while i < nbu
            invariant
                i <= nbu,
                self.wf(),
                self.bytes == old(self).bytes,
                classifier@.features.len() == i,
                classifier@.bases.len() == 0,
                parse_pairs(b, pos_pairs, nbu as nat) == with_prefix(
                    classifier@.features,
                    parse_pairs(b, self.pos as int, (nbu - i) as nat),
                ),
            decreases nbu - i,
        {
            let ghost pre = classifier@.features;
            let ghost pcur = self.pos as int;
            let x = match self.read_i32() {
                Ok(v) => v,
                Err(e) => {
                    return Err(e);
                },
            };
            let y = match self.read_i32() {
                Ok(v) => v,
                Err(e) => {
                    proof {
                        assert(!can_read(b, pcur, 8));
                        assert(parse_pairs(b, pcur, (nbu - i) as nat) == Err::<
                            (Seq<(i32, i32)>, int),
                            ModelError,
                        >(ModelError::UnexpectedEof));
                    }
                    return Err(e);
                },
            };
            classifier.add_feature(x, y);
            proof {
                assert(parse_pairs(b, pcur, (nbu - i) as nat) == (match parse_pairs(
                    b,
                    pcur + 8,
                    (nbu - i - 1) as nat,
                ) {
                    Ok((rest, p)) => Ok::<_, ModelError>((seq![(x, y)] + rest, p)),
                    Err(e) => Err(e),
                }));
                match parse_pairs(b, pcur + 8, (nbu - i - 1) as nat) {
                    Ok((rest, p)) => {
                        assert(pre + (seq![(x, y)] + rest) =~= classifier@.features + rest);
                    },
                    Err(_) => {},
                }
            }
            i += 1;
        }

        let ghost pairs_end = self.pos as int;
        proof {
            assert(classifier@.features + Seq::<(i32, i32)>::empty() =~= classifier@.features);
            assert(parse_pairs(b, pos_pairs, nbu as nat) == Ok::<_, ModelError>(
                (classifier@.features, pairs_end),
            ));
            lemma_parse_u32s_len(b, pairs_end, nbu as nat);
        }
        let threshes = match self.read_u32s(nbu) {
            Ok(v) => v,
            Err(e) => {
                return Err(e);
            },
        };

        let ghost features_v = classifier@.features;
        let ghost pos_rows = self.pos as int;
        let ghost m = (nbin + 1) as nat;
        let mut rows_acc: Ghost<Seq<Seq<u32>>> = Ghost(Seq::empty());
        let mut k: usize = 0;
        while k < nbu
            invariant
                k <= nbu,
                self.wf(),
                self.bytes == old(self).bytes,
                classifier@.features == features_v,
                threshes@.len() == nbu,
                rows_acc@.len() == k,
                classifier@.bases.len() == k,
                forall|j: int|
                    0 <= j < k ==> classifier@.bases[j] == (rows_acc@[j], threshes@[j]),
                parse_rows(b, pos_rows, nbu as nat, m) == with_prefix(
                    rows_acc@,
                    parse_rows(b, self.pos as int, (nbu - k) as nat, m),
                ),
            decreases nbu - k,
        {
            let ghost pre = rows_acc@;
            let ghost pcur = self.pos as int;
            let count = nbin as usize + 1;
            let weights = match self.read_u32s(count) {
                Ok(v) => v,
                Err(e) => {
                    return Err(e);
                },
            };
            let ghost wv = weights@;
            classifier.add_base_classifier(weights, threshes[k]);
            proof {
                rows_acc@ = pre.push(wv);
            }
            proof {
                assert(parse_rows(b, pcur, (nbu - k) as nat, m) == (match parse_u32s(b, pcur, m) {
                    Ok((row, p1)) => match parse_rows(b, p1, (nbu - k - 1) as nat, m) {
                        Ok((rest, p2)) => Ok::<_, ModelError>((seq![row] + rest, p2)),
                        Err(e) => Err(e),
                    },
                    Err(e) => Err(e),
                }));
                match parse_rows(b, self.pos as int, (nbu - k - 1) as nat, m) {
                    Ok((rest, p)) => {
                        assert(pre + (seq![wv] + rest) =~= rows_acc@ + rest);
                    },
                    Err(_) => {},
                }
            }
            k += 1;
        }
        proof {
            assert(rows_acc@ + Seq::<Seq<u32>>::empty() =~= rows_acc@);
            assert(parse_rows(b, pos_rows, nbu as nat, m) == Ok::<_, ModelError>(
                (rows_acc@, self.pos as int),
            ));
            assert(classifier@.bases =~= Seq::new(
                nbu as nat,
                |j: int| (rows_acc@[j], threshes@[j]),
            ));
            assert(classifier@ == LabSpec {
                features: classifier@.features,
                bases: Seq::new(nbu as nat, |j: int| (rows_acc@[j], threshes@[j])),
            });
        }
        Ok(classifier)
    }

    /// Read one SURF-MLP classifier record.
    #[verifier::loop_isolation(false)]
    #[verifier::rlimit(60)]
    #[verifier::spinoff_prover]
    fn read_surf(&mut self) -> (r: Result<SurfMlpClassifier, ModelError>)
        requires
            old(self).wf(),
        ensures
            final(self).wf(),
            final(self).bytes == old(self).bytes,
            match r {
                Ok(c) => parse_surf(old(self).bytes@, old(self).pos as int) == Ok::<_, ModelError>(
                    (c@, final(self).pos as int),
                ),
                Err(e) => parse_surf(old(self).bytes@, old(self).pos as int) == Err::<
                    (SurfSpec, int),
                    _,
                >(e),
            },
    {
        let ghost b = self.bytes@;
        let ghost pos0 = self.pos as int;
        let num_layer = match self.read_i32() {
            Ok(v) => v,
            Err(e) => {
                return Err(e);
            },
        };
        let num_feat = match self.read_i32() {
            Ok(v) => v,
            Err(e) => {
                return Err(e);
            },
        };
        if num_layer < 0 || num_feat < 0 {
            return Err(ModelError::NegativeCount);
        }
        let feature_ids = match self.read_i32s(num_feat as usize) {
            Ok(v) => v,
            Err(e) => {
                return Err(e);
            },
        };
        let ghost p1 = self.pos as int;
        let thresh = match self.read_u32() {
            Ok(v) => v,
            Err(e) => {
                return Err(e);
            },
        };
        let input_dim = match self.read_i32() {
            Ok(v) => v,
            Err(e) => {
                proof {
                    assert(!can_read(b, p1, 8));
                }
                return Err(e);
            },
        };
        if input_dim < 0 {
            return Err(ModelError::NegativeCount);
        }

        let mut classifier = SurfMlpClassifier { feature_ids, thresh, layers: Vec::new() };
        proof {
            assert(classifier@.layers =~= Seq::<LayerSpec>::empty());
        }
        let ghost pos_layers = self.pos as int;
        let ghost total_k: nat = if num_layer >= 1 {
            (num_layer - 1) as nat
        } else {
            0nat
        };
        let mut in_dim: i32 = input_dim;
        let mut li: i32 = 1;
        proof {
            match parse_layers(b, pos_layers, total_k, input_dim as int) {
                Ok((rest, p)) => {
                    assert(classifier@.layers + rest =~= rest);
                },
                Err(_) => {},
            }
        }
        while li < num_layer
            invariant
                1 <= li,
                num_layer >= 1 ==> li <= num_layer,
                num_layer < 1 ==> self.pos == pos_layers && li == 1,
                in_dim >= 0,
                self.wf(),
                self.bytes == old(self).bytes,
                classifier@.feature_ids == feature_ids@,
                classifier@.thresh == thresh,
                classifier@.layers.len() == li - 1,
                li <= num_layer ==> parse_layers(b, pos_layers, total_k, input_dim as int) == (
                match parse_layers(
                    b,
                    self.pos as int,
                    (num_layer - li) as nat,
                    in_dim as int,
                ) {
                    Ok((rest, p)) => Ok::<_, ModelError>((classifier@.layers + rest, p)),
                    Err(e) => Err(e),
                }),
            decreases num_layer - li,
        {
            let ghost pre = classifier@.layers;
            let ghost pcur = self.pos as int;
            let ghost in0 = in_dim as int;
            let out_dim = match self.read_i32() {
                Ok(v) => v,
                Err(e) => {
                    return Err(e);
                },
            };
            if out_dim < 0 {
                return Err(ModelError::NegativeCount);
            }
            proof {
                assert((in_dim as u64) * (out_dim as u64) <= 0x7fff_ffff * 0x7fff_ffff)
                    by (nonlinear_arith)
                    requires
                        0 <= in_dim <= 0x7fff_ffff,
                        0 <= out_dim <= 0x7fff_ffff,
                ;
                assert((in_dim as u64) * (out_dim as u64) == in0 * out_dim);
            }
            let wcount = (in_dim as u64) * (out_dim as u64);
            let remaining = ((self.bytes.len() - self.pos) / 4) as u64;
            if wcount > remaining {
                proof {
                    vstd::arithmetic::div_mod::lemma_fundamental_div_mod(
                        self.bytes@.len() - self.pos as int,
                        4,
                    );
                    lemma_parse_u32s_eof(b, self.pos as int, (in0 * out_dim) as nat);
                }
                return Err(ModelError::UnexpectedEof);
            }
            let weights = match self.read_u32s(wcount as usize) {
                Ok(v) => v,
                Err(e) => {
                    return Err(e);
                },
            };
            let biases = match self.read_u32s(out_dim as usize) {
                Ok(v) => v,
                Err(e) => {
                    return Err(e);
                },
            };
            let ghost wv = weights@;
            let ghost bv = biases@;
            let sigmoid = li == num_layer - 1;
            if sigmoid {
                classifier.add_output_layer(in_dim as usize, out_dim as usize, weights, biases);
            } else {
                classifier.add_layer(in_dim as usize, out_dim as usize, weights, biases);
            }
            proof {
                let k = (num_layer - li) as nat;
                assert(parse_layers(b, pcur, k, in0) == (match parse_u32s(
                    b,
                    pcur + 4,
                    (in0 * out_dim) as nat,
                ) {
                    Ok((ws, q1)) => match parse_u32s(b, q1, out_dim as nat) {
                        Ok((bs, q2)) => match parse_layers(b, q2, (k - 1) as nat, out_dim as int) {
                            Ok((rest, q3)) => Ok::<_, ModelError>(
                                (
                                    seq![
                                        LayerSpec {
                                            input_dim: in0,
                                            output_dim: out_dim as int,
                                            weights: ws,
                                            biases: bs,
                                            sigmoid_output: k == 1,
                                        },
                                    ] + rest,
                                    q3,
                                ),
                            ),
                            Err(e) => Err(e),
                        },
                        Err(e) => Err(e),
                    },
                    Err(e) => Err(e),
                }));
                let layer_spec = LayerSpec {
                    input_dim: in0,
                    output_dim: out_dim as int,
                    weights: wv,
                    biases: bv,
                    sigmoid_output: k == 1,
                };
                match parse_layers(b, self.pos as int, (k - 1) as nat, out_dim as int) {
                    Ok((rest, p)) => {
                        assert(pre + (seq![layer_spec] + rest) =~= classifier@.layers + rest);
                    },
                    Err(_) => {},
                }
            }
            in_dim = out_dim;
            li += 1;
        }
        proof {
            if num_layer >= 1 {
                assert(classifier@.layers + Seq::<LayerSpec>::empty() =~= classifier@.layers);
                assert(parse_layers(b, self.pos as int, (num_layer - li) as nat, in_dim as int)
                    == Ok::<_, ModelError>((Seq::<LayerSpec>::empty(), self.pos as int)));
            } else {
                assert(total_k == 0);
                assert(classifier@.layers =~= Seq::<LayerSpec>::empty());
                assert(self.pos == pos_layers);
            }
            assert(parse_layers(b, pos_layers, total_k, input_dim as int) == Ok::<_, ModelError>(
                (classifier@.layers, self.pos as int),
            ));
        }
        Ok(classifier)
    }

    /// Read one classifier record of either kind.
    fn read_classifier(&mut self) -> (r: Result<Classifier, ModelError>)
        requires
            old(self).wf(),
        ensures
            final(self).wf(),
            final(self).bytes == old(self).bytes,
            match r {
                Ok(c) => parse_classifier(old(self).bytes@, old(self).pos as int) == Ok::<
                    _,
                    ModelError,
                >((c@, final(self).pos as int)),
                Err(e) => parse_classifier(old(self).bytes@, old(self).pos as int) == Err::<
                    (ClassifierSpec, int),
                    _,
                >(e),
            },
    {
        let kind = match self.read_i32() {
            Ok(v) => v,
            Err(e) => {
                return Err(e);
            },
        };
        if kind == 0 {
            match self.read_lab() {
                Ok(c) => Ok(Classifier::LabBoosted(c)),
                Err(e) => Err(e),
            }
        } else if kind == 1 {
            match self.read_surf() {
                Ok(c) => Ok(Classifier::SurfMlp(c)),
                Err(e) => Err(e),
            }
        } else {
            Err(ModelError::UnknownClassifierKind)
        }
    }
}


/// The view of a classifier list.
pub open spec fn classifiers_view(v: Seq<Classifier>) -> Seq<ClassifierSpec> {
    v.map_values(|c: Classifier| c@)
}

/// The view of a routing table.
pub open spec fn wnd_view(v: Seq<Vec<i32>>) -> Seq<Seq<i32>> {
    v.map_values(|w: Vec<i32>| w@)
}

impl<'a> ModelReader<'a> {
    /// Read one hierarchy member: its stages and its proposal sources.
    #[verifier::loop_isolation(false)]
    fn read_member(&mut self) -> (r: Result<(Vec<Classifier>, i32, Vec<i32>), ModelError>)
        requires
            old(self).wf(),
        ensures
            final(self).wf(),
            final(self).bytes == old(self).bytes,
            match r {
                Ok(t) => parse_member(old(self).bytes@, old(self).pos as int) == Ok::<
                    _,
                    ModelError,
                >(((classifiers_view(t.0@), t.1, t.2@), final(self).pos as int)),
                Err(e) => parse_member(old(self).bytes@, old(self).pos as int) == Err::<
                    ((Seq<ClassifierSpec>, i32, Seq<i32>), int),
                    _,
                >(e),
            },
    {
        let ghost b = self.bytes@;
        let num_stage = match self.read_i32() {
            Ok(v) => v,
            Err(e) => {
                return Err(e);
            },
        };
        if num_stage < 0 {
            return Err(ModelError::NegativeCount);
        }
        let ghost pos_stages = self.pos as int;
        let n = num_stage as usize;
        let mut stages: Vec<Classifier> = Vec::new();
        proof {
            assert(classifiers_view(stages@) =~= Seq::<ClassifierSpec>::empty());
        }
        let mut i: usize = 0;
        while i < n
            invariant
                i <= n,
                self.wf(),
                self.bytes == old(self).bytes,
                stages@.len() == i,
                parse_stages(b, pos_stages, n as nat) == with_prefix(
                    classifiers_view(stages@),
                    parse_stages(b, self.pos as int, (n - i) as nat),
                ),
            decreases n - i,
        {
            let ghost pre = classifiers_view(stages@);
            let ghost pcur = self.pos as int;
            let c = match self.read_classifier() {
                Ok(v) => v,
                Err(e) => {
                    return Err(e);
                },
            };
            let ghost cv = c@;
            stages.push(c);
            proof {
                assert(classifiers_view(stages@) =~= pre.push(cv));
                assert(parse_stages(b, pcur, (n - i) as nat) == (match parse_stages(
                    b,
                    self.pos as int,
                    (n - i - 1) as nat,
                ) {
                    Ok((rest, p)) => Ok::<_, ModelError>((seq![cv] + rest, p)),
                    Err(e) => Err(e),
                }));
                match parse_stages(b, self.pos as int, (n - i - 1) as nat) {
                    Ok((rest, p)) => {
                        assert(pre + (seq![cv] + rest) =~= classifiers_view(stages@) + rest);
                    },
                    Err(_) => {},
                }
            }
            i += 1;
        }
        proof {
            assert(classifiers_view(stages@) + Seq::<ClassifierSpec>::empty() =~= classifiers_view(
                stages@,
            ));
            assert(parse_stages(b, pos_stages, n as nat) == Ok::<_, ModelError>(
                (classifiers_view(stages@), self.pos as int),
            ));
        }

        let ghost pos_wnd = self.pos as int;
        let num_wnd = match self.read_i32() {
            Ok(v) => v,
            Err(e) => {
                return Err(e);
            },
        };
        if num_wnd > 0 {
            match self.read_i32s(num_wnd as usize) {
                Ok(v) => Ok((stages, num_stage, v)),
                Err(e) => Err(e),
            }
        } else {
            let v: Vec<i32> = Vec::new();
            proof {
                assert(v@ =~= Seq::<i32>::empty());
            }
            Ok((stages, num_stage, v))
        }
    }

    /// Read `n` hierarchy members, concatenating their classifiers and
    /// collecting their stage counts and routing lists.
    #[verifier::loop_isolation(false)]
    #[verifier::rlimit(60)]
    #[verifier::spinoff_prover]
    fn read_members(&mut self, n: usize) -> (r: Result<
        (Vec<Classifier>, Vec<i32>, Vec<Vec<i32>>),
        ModelError,
    >)
        requires
            old(self).wf(),
        ensures
            final(self).wf(),
            final(self).bytes == old(self).bytes,
            match r {
                Ok(t) => parse_members(old(self).bytes@, old(self).pos as int, n as nat) == Ok::<
                    _,
                    ModelError,
                >(((classifiers_view(t.0@), t.1@, wnd_view(t.2@)), final(self).pos as int)),
                Err(e) => parse_members(old(self).bytes@, old(self).pos as int, n as nat) == Err::<
                    ((Seq<ClassifierSpec>, Seq<i32>, Seq<Seq<i32>>), int),
                    _,
                >(e),
            },
    {
        let ghost b = self.bytes@;
        let ghost pos0 = self.pos as int;
        let mut cs: Vec<Classifier> = Vec::new();
        let mut nss: Vec<i32> = Vec::new();
        let mut wnds: Vec<Vec<i32>> = Vec::new();
        proof {
            assert(classifiers_view(cs@) =~= Seq::<ClassifierSpec>::empty());
            assert(wnd_view(wnds@) =~= Seq::<Seq<i32>>::empty());
        }
        let mut i: usize = 0;
        while i < n
            invariant
                i <= n,
                self.wf(),
                self.bytes == old(self).bytes,
                parse_members(b, pos0, n as nat) == (match parse_members(
                    b,
                    self.pos as int,
                    (n - i) as nat,
                ) {
                    Ok(((cs2, nss2, wnds2), p)) => Ok::<_, ModelError>(
                        (
                            (
                                classifiers_view(cs@) + cs2,
                                nss@ + nss2,
                                wnd_view(wnds@) + wnds2,
                            ),
                            p,
                        ),
                    ),
                    Err(e) => Err(e),
                }),
            decreases n - i,
        {
            let ghost pre_cs = classifiers_view(cs@);
            let ghost pre_ns = nss@;
            let ghost pre_w = wnd_view(wnds@);
            let ghost pcur = self.pos as int;
            let (mut mcs, mns, mwnd) = match self.read_member() {
                Ok(t) => t,
                Err(e) => {
                    return Err(e);
                },
            };
            let ghost mcs_v = classifiers_view(mcs@);
            let ghost mwnd_v = mwnd@;
            cs.append(&mut mcs);
            nss.push(mns);
            wnds.push(mwnd);
            proof {
                assert(classifiers_view(cs@) =~= pre_cs + mcs_v);
                assert(wnd_view(wnds@) =~= pre_w.push(mwnd_v));
                assert(parse_members(b, pcur, (n - i) as nat) == (match parse_members(
                    b,
                    self.pos as int,
                    (n - i - 1) as nat,
                ) {
                    Ok(((cs2, nss2, wnds2), p)) => Ok::<_, ModelError>(
                        ((mcs_v + cs2, seq![mns] + nss2, seq![mwnd_v] + wnds2), p),
                    ),
                    Err(e) => Err(e),
                }));
                match parse_members(b, self.pos as int, (n - i - 1) as nat) {
                    Ok(((cs2, nss2, wnds2), p)) => {
                        assert(pre_cs + (mcs_v + cs2) =~= classifiers_view(cs@) + cs2);
                        assert(pre_ns + (seq![mns] + nss2) =~= nss@ + nss2);
                        assert(pre_w + (seq![mwnd_v] + wnds2) =~= wnd_view(wnds@) + wnds2);
                    },
                    Err(_) => {},
                }
            }
            i += 1;
        }
        proof {
            match parse_members(b, self.pos as int, 0nat) {
                Ok(((cs2, nss2, wnds2), p)) => {
                    assert(classifiers_view(cs@) + cs2 =~= classifiers_view(cs@));
                    assert(nss@ + nss2 =~= nss@);
                    assert(wnd_view(wnds@) + wnds2 =~= wnd_view(wnds@));
                },
                Err(_) => {},
            }
        }
        Ok((cs, nss, wnds))
    }

    /// Read `n` hierarchies.
    #[verifier::loop_isolation(false)]
    #[verifier::rlimit(100)]
    #[verifier::spinoff_prover]
    fn read_hierarchies(&mut self, n: usize) -> (r: Result<
        (Vec<Classifier>, Vec<i32>, Vec<Vec<i32>>, Vec<i32>),
        ModelError,
    >)
        requires
            old(self).wf(),
        ensures
            final(self).wf(),
            final(self).bytes == old(self).bytes,
            match r {
                Ok(t) => parse_hierarchies(old(self).bytes@, old(self).pos as int, n as nat)
                    == Ok::<_, ModelError>(
                    (
                        (classifiers_view(t.0@), t.1@, wnd_view(t.2@), t.3@),
                        final(self).pos as int,
                    ),
                ),
                Err(e) => parse_hierarchies(old(self).bytes@, old(self).pos as int, n as nat)
                    == Err::<((Seq<ClassifierSpec>, Seq<i32>, Seq<Seq<i32>>, Seq<i32>), int), _>(e),
            },
    {
        let ghost b = self.bytes@;
        let ghost pos0 = self.pos as int;
        let mut cs: Vec<Classifier> = Vec::new();
        let mut nss: Vec<i32> = Vec::new();
        let mut wnds: Vec<Vec<i32>> = Vec::new();
        let mut sizes: Vec<i32> = Vec::new();
        proof {
            assert(classifiers_view(cs@) =~= Seq::<ClassifierSpec>::empty());
            assert(wnd_view(wnds@) =~= Seq::<Seq<i32>>::empty());
        }
        let mut i: usize = 0;
        while i < n
            invariant
                i <= n,
                self.wf(),
                self.bytes == old(self).bytes,
                parse_hierarchies(b, pos0, n as nat) == (match parse_hierarchies(
                    b,
                    self.pos as int,
                    (n - i) as nat,
                ) {
                    Ok(((cs2, nss2, wnds2, sizes2), p)) => Ok::<_, ModelError>(
                        (
                            (
                                classifiers_view(cs@) + cs2,
                                nss@ + nss2,
                                wnd_view(wnds@) + wnds2,
                                sizes@ + sizes2,
                            ),
                            p,
                        ),
                    ),
                    Err(e) => Err(e),
                }),
            decreases n - i,
        {
            let ghost pre_cs = classifiers_view(cs@);
            let ghost pre_ns = nss@;
            let ghost pre_w = wnd_view(wnds@);
            let ghost pre_s = sizes@;
            let ghost pcur = self.pos as int;
            let size = match self.read_i32() {
                Ok(v) => v,
                Err(e) => {
                    return Err(e);
                },
            };
            if size < 0 {
                return Err(ModelError::NegativeCount);
            }
            let (mut mcs, mut mns, mut mwnd) = match self.read_members(size as usize) {
                Ok(t) => t,
                Err(e) => {
                    return Err(e);
                },
            };
            let ghost mcs_v = classifiers_view(mcs@);
            let ghost mns_v = mns@;
            let ghost mwnd_v = wnd_view(mwnd@);
            cs.append(&mut mcs);
            nss.append(&mut mns);
            wnds.append(&mut mwnd);
            sizes.push(size);
            proof {
                assert(classifiers_view(cs@) =~= pre_cs + mcs_v);
                assert(wnd_view(wnds@) =~= pre_w + mwnd_v);
                assert(parse_hierarchies(b, pcur, (n - i) as nat) == (match parse_hierarchies(
                    b,
                    self.pos as int,
                    (n - i - 1) as nat,
                ) {
                    Ok(((cs2, nss2, wnds2, sizes2), p)) => Ok::<_, ModelError>(
                        (
                            (mcs_v + cs2, mns_v + nss2, mwnd_v + wnds2, seq![size] + sizes2),
                            p,
                        ),
                    ),
                    Err(e) => Err(e),
                }));
                match parse_hierarchies(b, self.pos as int, (n - i - 1) as nat) {
                    Ok(((cs2, nss2, wnds2, sizes2), p)) => {
                        assert(pre_cs + (mcs_v + cs2) =~= classifiers_view(cs@) + cs2);
                        assert(pre_ns + (mns_v + nss2) =~= nss@ + nss2);
                        assert(pre_w + (mwnd_v + wnds2) =~= wnd_view(wnds@) + wnds2);
                        assert(pre_s + (seq![size] + sizes2) =~= sizes@ + sizes2);
                    },
                    Err(_) => {},
                }
            }
            i += 1;
        }
        proof {
            match parse_hierarchies(b, self.pos as int, 0nat) {
                Ok(((cs2, nss2, wnds2, sizes2), p)) => {
                    assert(classifiers_view(cs@) + cs2 =~= classifiers_view(cs@));
                    assert(nss@ + nss2 =~= nss@);
                    assert(wnd_view(wnds@) + wnds2 =~= wnd_view(wnds@));
                    assert(sizes@ + sizes2 =~= sizes@);
                },
                Err(_) => {},
            }
        }
        Ok((cs, nss, wnds, sizes))
    }

    /// Read a whole model from the cursor position.
    pub fn read(self) -> (r: Result<Model, ModelError>)
        requires
            self.wf(),
        ensures
            match r {
                Ok(m) => (match parse_model(self.bytes@, self.pos as int) {
                    Ok((sm, p)) => sm == m@,
                    Err(_) => false,
                }),
                Err(e) => parse_model(self.bytes@, self.pos as int) == Err::<(ModelSpec, int), _>(
                    e,
                ),
            },
    {
        let mut rd = self;
        let ghost b = rd.bytes@;
        let ghost pos0 = rd.pos as int;
        let nh = match rd.read_i32() {
            Ok(v) => v,
            Err(e) => {
                return Err(e);
            },
        };
        if nh < 0 {
            return Err(ModelError::NegativeCount);
        }
        match rd.read_hierarchies(nh as usize) {
            Ok((classifiers, num_stages, wnd_src_id, hierarchy_sizes)) => {
                let m = Model { classifiers, wnd_src_id, hierarchy_sizes, num_stages };
                Ok(m)
            },
            Err(e) => Err(e),
        }
    }
}

/// Parse a model from a byte stream. The result is exactly what the
/// model grammar assigns to the bytes: every well-formed stream yields
/// its model, and every other stream yields the error the grammar
/// assigns, with nothing read from anywhere else.
pub fn read_model(bytes: &[u8]) -> (r: Result<Model, ModelError>)
    ensures
        match r {
            Ok(m) => (match parse_model(bytes@, 0) {
                Ok((sm, p)) => sm == m@,
                Err(_) => false,
            }),
            Err(e) => parse_model(bytes@, 0) == Err::<(ModelSpec, int), _>(e),
        },
{
    ModelReader::new(bytes).read()
}


/// The sum of a sequence of counts.
pub open spec fn sum_of(s: Seq<i32>) -> int
    decreases s.len(),
{
    if s.len() == 0 {
        0
    } else {
        sum_of(s.drop_last()) + s.last()
    }
}

proof fn lemma_sum_of_prepend(x: i32, s: Seq<i32>)
    ensures
        sum_of(seq![x] + s) == x + sum_of(s),
    decreases s.len(),
{
    if s.len() == 0 {
        assert(seq![x] + s =~= seq![x]);
        assert((seq![x]).drop_last() =~= Seq::<i32>::empty());
        assert(sum_of(Seq::<i32>::empty()) == 0);
        assert(sum_of(seq![x]) == sum_of((seq![x]).drop_last()) + x);
        assert(sum_of(s) == 0);
    } else {
        assert((seq![x] + s).drop_last() =~= seq![x] + s.drop_last());
        assert((seq![x] + s).last() == s.last());
        lemma_sum_of_prepend(x, s.drop_last());
    }
}

proof fn lemma_sum_of_concat(a: Seq<i32>, b: Seq<i32>)
    ensures
        sum_of(a + b) == sum_of(a) + sum_of(b),
    decreases b.len(),
{
    if b.len() == 0 {
        assert(a + b =~= a);
    } else {
        assert((a + b).drop_last() =~= a + b.drop_last());
        assert((a + b).last() == b.last());
        lemma_sum_of_concat(a, b.drop_last());
    }
}

proof fn lemma_parse_stages_len(b: Seq<u8>, pos: int, n: nat)
    ensures
        parse_stages(b, pos, n) matches Ok(t) ==> t.0.len() == n,
    decreases n,
{
    if n > 0 {
        match parse_classifier(b, pos) {
            Ok((c, p1)) => {
                lemma_parse_stages_len(b, p1, (n - 1) as nat);
            },
            Err(_) => {},
        }
    }
}

proof fn lemma_parse_members_structure(b: Seq<u8>, pos: int, n: nat)
    ensures
        parse_members(b, pos, n) matches Ok(t) ==> {
            &&& t.0.1.len() == n
            &&& t.0.2.len() == n
            &&& t.0.0.len() == sum_of(t.0.1)
            &&& forall|k: int| 0 <= k < n ==> t.0.1[k] >= 0
        },
    decreases n,
{
    if n > 0 {
        match parse_member(b, pos) {
            Ok(((stages, ns, wnd), p1)) => {
                lemma_parse_stages_len(b, pos + 4, ns as nat);
                match parse_members(b, p1, (n - 1) as nat) {
                    Ok(((cs, nss, wnds), p2)) => {
                        lemma_parse_members_structure(b, p1, (n - 1) as nat);
                        lemma_sum_of_prepend(ns, nss);
                    },
                    Err(_) => {},
                }
            },
            Err(_) => {},
        }
    }
}

proof fn lemma_parse_hierarchies_structure(b: Seq<u8>, pos: int, n: nat)
    ensures
        parse_hierarchies(b, pos, n) matches Ok(t) ==> {
            &&& t.0.3.len() == n
            &&& t.0.1.len() == sum_of(t.0.3)
            &&& t.0.2.len() == sum_of(t.0.3)
            &&& t.0.0.len() == sum_of(t.0.1)
            &&& forall|k: int| 0 <= k < t.0.3.len() ==> t.0.3[k] >= 0
            &&& forall|k: int| 0 <= k < t.0.1.len() ==> t.0.1[k] >= 0
        },
    decreases n,
{
    if n > 0 && can_read(b, pos, 4) {
        let size = le_i32_at(b, pos);
        if size >= 0 {
            match parse_members(b, pos + 4, size as nat) {
                Ok(((cs, nss, wnds), p1)) => {
                    lemma_parse_members_structure(b, pos + 4, size as nat);
                    match parse_hierarchies(b, p1, (n - 1) as nat) {
                        Ok(((cs2, nss2, wnds2, sizes2), p2)) => {
                            lemma_parse_hierarchies_structure(b, p1, (n - 1) as nat);
                            lemma_sum_of_prepend(size, sizes2);
                            lemma_sum_of_concat(nss, nss2);
                            assert(sum_of(seq![size] + sizes2) == size + sum_of(sizes2));
                        },
                        Err(_) => {},
                    }
                },
                Err(_) => {},
            }
        }
    }
}

/// Law: every model a stream parses to is structurally coherent. Every
/// hierarchy member has one stage count and one routing list, every
/// stage one classifier: the stage-count and routing tables are as long
/// as the hierarchy sizes say, the classifier list is as long as the
/// stage counts say, and all counts are non-negative. The cascade
/// driver's hierarchy walk indexes the model on exactly these facts.
pub proof fn lemma_model_structure(b: Seq<u8>, pos: int, m: ModelSpec, p: int)
    requires
        parse_model(b, pos) == Ok::<(ModelSpec, int), ModelError>((m, p)),
    ensures
        m.num_stages.len() == sum_of(m.hierarchy_sizes),
        m.wnd_src_id.len() == sum_of(m.hierarchy_sizes),
        m.classifiers.len() == sum_of(m.num_stages),
        forall|k: int| 0 <= k < m.hierarchy_sizes.len() ==> m.hierarchy_sizes[k] >= 0,
        forall|k: int| 0 <= k < m.num_stages.len() ==> m.num_stages[k] >= 0,
{
    let nh = le_i32_at(b, pos);
    lemma_parse_hierarchies_structure(b, pos + 4, nh as nat);
}

} // verus!

//! Vision Transformer for small square images: patches by a strided convolution, learned
//! position embeddings, bidirectional transformer blocks, mean pooling and a linear head.

use vstd::prelude::*;
use crate::autograd::node::{Conv2dParams, Graph, LeafInit, Op};
use crate::autograd::tensor::{Tensor, conv_spec, conv_window_ok, reshape_ok};
use crate::error::EngineError;
use crate::nn::conv::{Conv2d, conv_weight};
use crate::nn::linear::{Linear, linear_out};
use crate::nn::module::{Module, lemma_seq_shapes_hold, lemma_shapes_hold_concat, seq_shapes, shapes_hold};
use crate::nn::norm::LayerNorm;
use crate::nn::transformer::{TransformerBlock, blocks_out, forward_blocks, lemma_blocks_preserve_shape};
use crate::shape::{broadcast_spec, broadcastable, conv_dim_spec, lemma_broadcast_collapsed, shape3, shape_vec};

verus! {

/// Hyperparameters of a Vision Transformer classifier.
#[derive(Clone, Copy, PartialEq, Eq, Structural)]
pub struct ViTConfig {
    /// Height and width of the square input image, in pixels.
    pub image_size: usize,
    /// Height and width of a square patch, in pixels.
    pub patch_size: usize,
    /// Number of image channels.
    pub in_channels: usize,
    /// Number of classes.
    pub num_classes: usize,
    /// Embedding dimension.
    pub d_model: usize,
    /// Number of encoder layers.
    pub num_layers: usize,
    /// Number of attention heads.
    pub num_heads: usize,
    /// Hidden dimension of the feed-forward blocks.
    pub mlp_dim: usize,
}

/// Number of patches of a `image x image` picture cut into `patch x patch` squares.
pub open spec fn num_patches_spec(image: int, patch: int) -> int {
    (image / patch) * (image / patch)
}

impl ViTConfig {
    /// 32x32 RGB images in 10 classes, 4x4 patches (64 tokens).
    pub fn cifar10() -> (r: ViTConfig)
        ensures
            r == (ViTConfig {
                image_size: 32, patch_size: 4, in_channels: 3, num_classes: 10,
                d_model: 64, num_layers: 3, num_heads: 4, mlp_dim: 256,
            }),
    {
        ViTConfig { image_size: 32, patch_size: 4, in_channels: 3, num_classes: 10, d_model: 64, num_layers: 3, num_heads: 4, mlp_dim: 256 }
    }

    /// 32x32 RGB images in 100 classes, 4x4 patches (64 tokens).
    pub fn cifar100() -> (r: ViTConfig)
        ensures
            r == (ViTConfig {
                image_size: 32, patch_size: 4, in_channels: 3, num_classes: 100,
                d_model: 64, num_layers: 3, num_heads: 4, mlp_dim: 256,
            }),
    {
        ViTConfig { image_size: 32, patch_size: 4, in_channels: 3, num_classes: 100, d_model: 64, num_layers: 3, num_heads: 4, mlp_dim: 256 }
    }

    /// 28x28 grayscale images in 10 classes, 4x4 patches (49 tokens).
    pub fn mnist() -> (r: ViTConfig)
        ensures
            r == (ViTConfig {
                image_size: 28, patch_size: 4, in_channels: 1, num_classes: 10,
                d_model: 64, num_layers: 2, num_heads: 4, mlp_dim: 128,
            }),
    {
        ViTConfig { image_size: 28, patch_size: 4, in_channels: 1, num_classes: 10, d_model: 64, num_layers: 2, num_heads: 4, mlp_dim: 128 }
    }

    /// Number of patches, `(image_size / patch_size)^2`.
    pub fn num_patches(&self) -> (r: usize)
        requires
            self.patch_size > 0,
            num_patches_spec(self.image_size as int, self.patch_size as int) <= usize::MAX,
        ensures
            r == num_patches_spec(self.image_size as int, self.patch_size as int),
    {
        let side = self.image_size / self.patch_size;
        side * side
    }
}

/// Bit pattern of the `f32` `0.02`, the standard deviation of the position embeddings.
pub const POS_STD_BITS: u32 = 0x3ca3_d70a;

/// Vision Transformer classifier.
pub struct VisionTransformer {
    pub config: ViTConfig,
    /// Strided convolution that cuts the image into patches and embeds each.
    pub patch_embed: Conv2d,
    /// Learnable position embeddings, `[1, num_patches, d_model]`.
    pub pos_embed: Tensor,
    pub blocks: Vec<TransformerBlock>,
    pub norm: LayerNorm,
    pub head: Linear,
}

impl VisionTransformer {
    /// The tensors that `parameters` gives, in order.
    pub open spec fn param_seq(&self) -> Seq<Tensor> {
        self.patch_embed.param_list() + seq![self.pos_embed] + crate::nn::module::seq_params(self.blocks@) + seq![self.norm.weight, self.norm.bias]
            + self.head.param_seq()
    }
}

impl VisionTransformer {
    /// Every part lives in `g` with its expected shapes.
    pub open spec fn wf_in(&self, g: Graph) -> bool {
        &&& self.patch_embed.wf_in(g)
        &&& self.pos_embed.valid(g)
        &&& forall|k: int| 0 <= k < self.blocks@.len() ==> (#[trigger] self.blocks@[k]).wf_in(g)
        &&& self.norm.wf_in(g)
        &&& self.head.wf_in(g)
    }

    /// Shape of the patch tokens of an image batch of shape `x`: `[batch, num_patches, d_model]`.
    pub open spec fn token_shape(&self, x: Seq<usize>) -> Seq<usize> {
        seq![x[0], num_patches_spec(self.config.image_size as int, self.config.patch_size as int) as usize, self.config.d_model]
    }

    /// Shape of the patch embeddings: the convolution's output.
    pub open spec fn patch_shape(&self, x: Seq<usize>) -> Seq<usize> {
        conv_spec(x, conv_weight(self.patch_embed), self.patch_embed.params)
    }

    /// Shape reaching the blocks: tokens plus position embeddings of shape `pos`.
    pub open spec fn embedded(&self, x: Seq<usize>, pos: Seq<usize>) -> Seq<usize> {
        broadcast_spec(self.token_shape(x), pos)
    }

    /// Shape leaving the blocks.
    pub open spec fn encoded(&self, x: Seq<usize>, pos: Seq<usize>) -> Seq<usize> {
        blocks_out(self.blocks@, self.embedded(x, pos))->Some_0
    }

    /// Shape after mean pooling over the patches.
    pub open spec fn pooled(&self, x: Seq<usize>, pos: Seq<usize>) -> Seq<usize> {
        self.encoded(x, pos).remove(1)
    }

    /// The input has rank 4 and the configured channels and image size.
    pub open spec fn image_ok(&self, x: Seq<usize>) -> bool {
        &&& x.len() == 4
        &&& x[1] == self.config.in_channels
        &&& x[2] == self.config.image_size
        &&& x[3] == self.config.image_size
    }

    /// The model accepts images of shape `x` with position embeddings of shape `pos`: every
    /// stage accepts what reaches it.
    pub open spec fn accepts(&self, x: Seq<usize>, pos: Seq<usize>) -> bool {
        let p = self.patch_shape(x);
        &&& self.image_ok(x)
        &&& x[1] == self.patch_embed.in_channels
        &&& conv_window_ok(x, conv_weight(self.patch_embed), self.patch_embed.params)
        &&& reshape_ok(seq![p[0], p[2], p[3], p[1]], self.token_shape(x))
        &&& broadcastable(self.token_shape(x), pos)
        &&& blocks_out(self.blocks@, self.embedded(x, pos)) is Some
        &&& self.norm.accepts(self.encoded(x, pos))
        &&& 1 < self.encoded(x, pos).len()
        &&& self.head.accepts(self.pooled(x, pos))
    }

    /// Shape of the class scores.
    pub open spec fn out_shape(&self, x: Seq<usize>, pos: Seq<usize>) -> Seq<usize> {
        linear_out(self.pooled(x, pos), self.head.out_features)
    }

    /// The model as `new` builds it from its configuration.
    pub open spec fn consistent(&self) -> bool {
        let c = self.config;
        &&& c.patch_size > 0
        &&& self.patch_embed.in_channels == c.in_channels
        &&& self.patch_embed.out_channels == c.d_model
        &&& self.patch_embed.kernel_size == (c.patch_size, c.patch_size)
        &&& self.patch_embed.params == (Conv2dParams { stride: (c.patch_size, c.patch_size), padding: (0, 0), dilation: (1, 1) })
        &&& forall|k: int| 0 <= k < self.blocks@.len() ==> (#[trigger] self.blocks@[k]).consistent() && self.blocks@[k].attn.d_model == c.d_model
        &&& self.norm.normalized_dim == c.d_model
        &&& self.head.in_features == c.d_model
        &&& self.head.out_features == c.num_classes
    }

    /// A model built from `config`: a patch convolution of kernel and stride `patch_size`,
    /// normal position embeddings (standard deviation 0.02), `num_layers` bidirectional blocks,
    /// a final norm and a linear head.
    pub fn new(g: &mut Graph, config: ViTConfig) -> (r: VisionTransformer)
        requires
            old(g).wf(),
            config.patch_size > 0,
            config.image_size % config.patch_size == 0,
            num_patches_spec(config.image_size as int, config.patch_size as int) <= usize::MAX,
            config.in_channels * config.patch_size * config.patch_size <= usize::MAX,
            config.num_heads > 0,
            config.d_model % config.num_heads == 0,
            config.d_model * 4 <= usize::MAX,
        ensures
            final(g).wf(),
            old(g).extended_by(*final(g)),
            r.wf_in(*final(g)),
            r.consistent(),
            r.config == config,
            r.blocks@.len() == config.num_layers,
            r.pos_embed.shape_of(*final(g)) == seq![1usize, num_patches_spec(config.image_size as int, config.patch_size as int) as usize, config.d_model],
            final(g).nodes@[r.pos_embed.id as int].op == Op::Leaf(LeafInit::Normal { mean_bits: 0, std_bits: POS_STD_BITS }),
            forall|k: int| 0 <= k < config.num_layers ==> !(#[trigger] r.blocks@[k]).attn.is_causal,
    {
        let ghost g0 = *g;
        let num_patches = config.num_patches();
        let patch_embed = Conv2d::with_options(
            g,
            config.in_channels,
            config.d_model,
            (config.patch_size, config.patch_size),
            (config.patch_size, config.patch_size),
            (0, 0),
            (1, 1),
            true,
        );
        let ghost g1 = *g;
        let ps = shape3(1, num_patches, config.d_model);
        let pos_embed = Tensor::randn(g, ps.as_slice(), 0, POS_STD_BITS, true);
        let ghost g2 = *g;
        let mut blocks: Vec<TransformerBlock> = Vec::new();
        let mut k: usize = 0;
        while k < config.num_layers
            invariant
                g.wf(),
                g2.extended_by(*g),
                config.num_heads > 0,
                config.d_model % config.num_heads == 0,
                config.d_model * 4 <= usize::MAX,
                k <= config.num_layers,
                blocks@.len() == k,
                forall|j: int| 0 <= j < k ==> (#[trigger] blocks@[j]).wf_in(*g) && blocks@[j].consistent()
                    && blocks@[j].attn.d_model == config.d_model && !blocks@[j].attn.is_causal,
            decreases config.num_layers - k,
        {
            let ghost gk = *g;
            let b = TransformerBlock::new(g, config.d_model, config.num_heads, false);
            proof {
                g2.lemma_extended_trans(gk, *g);
                assert forall|j: int| 0 <= j < k implies (#[trigger] blocks@[j]).wf_in(*g) by {
                    blocks@[j].lemma_wf_in_shapes(gk);
                    crate::nn::module::lemma_shapes_hold_extend(gk, *g, blocks@[j].shapes());
                    blocks@[j].lemma_wf_in_shapes(*g);
                }
            }
            blocks.push(b);
            k = k + 1;
        }
        let ghost g3 = *g;
        let norm = LayerNorm::new(g, config.d_model);
        let ghost g4 = *g;
        let head = Linear::new(g, config.d_model, config.num_classes);
        let r = VisionTransformer { config, patch_embed, pos_embed, blocks, norm, head };
        proof {
            g0.lemma_extended_trans(g1, g2);
            g0.lemma_extended_trans(g2, g3);
            g0.lemma_extended_trans(g3, g4);
            g0.lemma_extended_trans(g4, *g);
            g1.lemma_extended_trans(g2, *g);
            g2.lemma_extended_trans(g3, *g);
            patch_embed.lemma_wf_in_shapes(g1);
            crate::nn::module::lemma_shapes_hold_extend(g1, *g, patch_embed.shapes());
            patch_embed.lemma_wf_in_shapes(*g);
            assert(g.nodes@[pos_embed.id as int] == g2.nodes@[pos_embed.id as int]);
            assert forall|j: int| 0 <= j < r.blocks@.len() implies (#[trigger] r.blocks@[j]).wf_in(*g) by {
                r.blocks@[j].lemma_wf_in_shapes(g3);
                crate::nn::module::lemma_shapes_hold_extend(g3, *g, r.blocks@[j].shapes());
                r.blocks@[j].lemma_wf_in_shapes(*g);
            }
            norm.lemma_wf_in_shapes(g4);
            crate::nn::module::lemma_shapes_hold_extend(g4, *g, norm.shapes());
            norm.lemma_wf_in_shapes(*g);
        }
        r
    }

    /// Class scores for a batch of images. A rank other than 4 is refused with
    /// `IncompatibleShapes` and other channels or image sizes with `ShapeMismatch` (recording
    /// nothing); otherwise succeeds exactly when every stage accepts what reaches it.
    pub fn forward_vit(&self, g: &mut Graph, input: &Tensor) -> (r: Result<Tensor, EngineError>)
        requires
            old(g).wf(),
            self.wf_in(*old(g)),
            input.valid(*old(g)),
            self.config.patch_size > 0,
            num_patches_spec(self.config.image_size as int, self.config.patch_size as int) <= usize::MAX,
        ensures
            final(g).wf(),
            old(g).extended_by(*final(g)),
            r is Ok <==> self.accepts(input.shape_of(*old(g)), self.pos_embed.shape_of(*old(g))),
            r matches Ok(t) ==> t.valid(*final(g))
                && t.shape_of(*final(g)) == self.out_shape(input.shape_of(*old(g)), self.pos_embed.shape_of(*old(g))),
            input.shape_of(*old(g)).len() != 4 ==> (r matches Err(e) && e is IncompatibleShapes && *final(g) == *old(g)),
            (input.shape_of(*old(g)).len() == 4 && !self.image_ok(input.shape_of(*old(g)))) ==> (r matches Err(e)
                && *final(g) == *old(g)
                && (e matches EngineError::ShapeMismatch { expected, actual }
                    && expected@ == seq![input.shape_of(*old(g))[0], self.config.in_channels, self.config.image_size, self.config.image_size]
                    && actual@ == input.shape_of(*old(g)))),
    {
        let ghost g0 = *g;
        let ghost pos = self.pos_embed.shape_of(*g);
        let x = input.shape(g);
        let ghost xs = x@;
        if x.len() != 4 {
            let mut shapes: Vec<Vec<usize>> = Vec::new();
            shapes.push(x);
            return Err(EngineError::IncompatibleShapes {
                op: "VisionTransformer forward (expected 4D tensor [B, C, H, W])",
                shapes,
            });
        }
        let c = self.config;
        if x[1] != c.in_channels || x[2] != c.image_size || x[3] != c.image_size {
            let expected = crate::shape::shape4(x[0], c.in_channels, c.image_size, c.image_size);
            return Err(EngineError::ShapeMismatch { expected, actual: x });
        }
        proof {
            self.patch_embed.lemma_wf_in_shapes(g0);
        }
        let p = match self.patch_embed.forward(g, input) {
            Ok(t) => t,
            Err(e) => {
                return Err(e);
            },
        };
        let ghost g1 = *g;
        let num_patches = c.num_patches();
        let mut dims: Vec<usize> = Vec::new();
        dims.push(0);
        dims.push(2);
        dims.push(3);
        dims.push(1);
        proof {
            assert(crate::shape::is_permutation(dims@, 4)) by {
                assert forall|i: int| 0 <= i < 4 implies (#[trigger] dims@[i]) < 4 by {}
                assert forall|i: int, j: int| 0 <= i < 4 && 0 <= j < 4 && i != j implies dims@[i] != dims@[j] by {}
            }
        }
        let perm = match p.permute(g, dims.as_slice()) {
            Ok(t) => t,
            Err(e) => {
                proof {
                    g0.lemma_extended_trans(g1, *g);
                }
                return Err(e);
            },
        };
        let ghost g2 = *g;
        let ghost ps = self.patch_shape(xs);
        assert(perm.shape_of(g2) =~= seq![ps[0], ps[2], ps[3], ps[1]]);
        let tshape = shape3(x[0], num_patches, c.d_model);
        assert(tshape@ == self.token_shape(xs));
        let tokens = match perm.reshape(g, tshape.as_slice()) {
            Ok(t) => t,
            Err(e) => {
                proof {
                    g0.lemma_extended_trans(g1, g2);
                }
                return Err(e);
            },
        };
        let ghost g3 = *g;
        proof {
            g0.lemma_extended_trans(g1, g2);
            g0.lemma_extended_trans(g2, g3);
        }
        assert(g3.nodes@[self.pos_embed.id as int] == g0.nodes@[self.pos_embed.id as int]);
        let emb = match tokens.add(g, &self.pos_embed) {
            Ok(t) => t,
            Err(e) => {
                return Err(e);
            },
        };
        let ghost g4 = *g;
        proof {
            g0.lemma_extended_trans(g3, g4);
            assert forall|k: int| 0 <= k < self.blocks@.len() implies (#[trigger] self.blocks@[k]).wf_in(g4) by {
                self.blocks@[k].lemma_wf_in_shapes(g0);
                crate::nn::module::lemma_shapes_hold_extend(g0, g4, self.blocks@[k].shapes());
                self.blocks@[k].lemma_wf_in_shapes(g4);
            }
        }
        let enc = match forward_blocks(g, &self.blocks, &emb) {
            Ok(t) => t,
            Err(e) => {
                proof {
                    g0.lemma_extended_trans(g4, *g);
                }
                return Err(e);
            },
        };
        let ghost g5 = *g;
        proof {
            g0.lemma_extended_trans(g4, g5);
            self.norm.lemma_wf_in_shapes(g0);
            crate::nn::module::lemma_shapes_hold_extend(g0, g5, self.norm.shapes());
            self.norm.lemma_wf_in_shapes(g5);
        }
        let normed = match self.norm.forward_norm(g, &enc) {
            Ok(t) => t,
            Err(e) => {
                return Err(e);
            },
        };
        let ghost g6 = *g;
        let pooled = match normed.mean(g, 1, false) {
            Ok(t) => t,
            Err(e) => {
                proof {
                    g0.lemma_extended_trans(g5, g6);
                }
                return Err(e);
            },
        };
        let ghost g7 = *g;
        proof {
            g0.lemma_extended_trans(g5, g6);
            g0.lemma_extended_trans(g6, g7);
            self.head.lemma_wf_in_shapes(g0);
            crate::nn::module::lemma_shapes_hold_extend(g0, g7, self.head.shapes());
            self.head.lemma_wf_in_shapes(g7);
        }
        let out = self.head.forward_linear(g, &pooled);
        proof {
            g0.lemma_extended_trans(g7, *g);
        }
        out
    }

    /// The learnable tensors: the patch convolution's, the position embeddings, each block's,
    /// the final norm's and the head's.
    pub fn parameters(&self) -> (r: Vec<Tensor>)
        ensures
            r@ == self.param_seq(),
            forall|g: Graph| #[trigger] self.wf_in(g) ==> forall|k: int| 0 <= k < r@.len() ==> (#[trigger] r@[k]).valid(g),
    {
        let mut params = self.patch_embed.parameters();
        params.push(self.pos_embed);
        proof {
            assert forall|g: Graph| #[trigger] self.wf_in(g) implies forall|k: int| 0 <= k < params@.len() ==> (#[trigger] params@[k]).valid(g) by {
                self.patch_embed.lemma_wf_in_shapes(g);
            }
        }
        let ghost base_blocks = params@;
        proof {
            assert(crate::nn::module::seq_params(self.blocks@.take(0)) =~= Seq::<Tensor>::empty());
        }
        let mut i: usize = 0;
        while i < self.blocks.len()
            invariant
                i <= self.blocks@.len(),
                params@ == base_blocks + crate::nn::module::seq_params(self.blocks@.take(i as int)),
                forall|g: Graph| #[trigger] self.wf_in(g) ==> forall|k: int| 0 <= k < params@.len() ==> (#[trigger] params@[k]).valid(g),
            decreases self.blocks.len() - i,
        {
            let mut p = self.blocks[i].parameters();
            proof {
                crate::nn::module::lemma_seq_params_step(self.blocks@, i as int);
            }
            let ghost before = params@;
            let ghost b = self.blocks@[i as int];
            params.append(&mut p);
            proof {
                assert forall|g: Graph| #[trigger] self.wf_in(g) implies forall|k: int| 0 <= k < params@.len() ==> (#[trigger] params@[k]).valid(g) by {
                    assert(b.wf_in(g));
                    b.lemma_wf_in_shapes(g);
                    crate::nn::module::lemma_tensors_valid(g, b.shapes());
                    assert forall|k: int| 0 <= k < params@.len() implies (#[trigger] params@[k]).valid(g) by {
                        if k >= before.len() {
                            assert(params@[k] == crate::nn::module::tensors_of(b.shapes())[k - before.len()]);
                        } else {
                            assert(params@[k] == before[k]);
                        }
                    }
                }
            }
            i = i + 1;
        }
        proof {
            assert(self.blocks@.take(self.blocks@.len() as int) =~= self.blocks@);
        }
        params.push(self.norm.weight);
        params.push(self.norm.bias);
        let ghost before = params@;
        let mut h = self.head.parameters();
        params.append(&mut h);
        proof {
            assert forall|g: Graph| #[trigger] self.wf_in(g) implies forall|k: int| 0 <= k < params@.len() ==> (#[trigger] params@[k]).valid(g) by {
                assert forall|k: int| 0 <= k < params@.len() implies (#[trigger] params@[k]).valid(g) by {
                    if k >= before.len() {
                        assert(params@[k] == self.head.param_seq()[k - before.len()]);
                    } else {
                        assert(params@[k] == before[k]);
                    }
                }
            }
        }
        proof {
            assert(params@ =~= self.param_seq());
        }
        params
    }
}

/// A consistent Vision Transformer with `[1, num_patches, d_model]` position embeddings maps
/// each accepted image batch to scores of shape `[batch, num_classes]`.
pub proof fn lemma_vit_scores_shape(m: VisionTransformer, x: Seq<usize>, pos: Seq<usize>)
    requires
        m.consistent(),
        pos == seq![1usize, num_patches_spec(m.config.image_size as int, m.config.patch_size as int) as usize, m.config.d_model],
        m.accepts(x, pos),
    ensures
        m.out_shape(x, pos) == seq![x[0], m.config.num_classes],
{
    let t = m.token_shape(x);
    assert forall|i: int| 0 <= i < t.len() implies #[trigger] pos[i] == t[i] || pos[i] == 1 by {}
    lemma_broadcast_collapsed(t, pos);
    assert(m.embedded(x, pos) == t);
    lemma_blocks_preserve_shape(m.blocks@, t);
    assert(m.encoded(x, pos) == t);
    assert(m.pooled(x, pos) =~= seq![x[0], m.config.d_model]);
    assert(m.out_shape(x, pos) =~= seq![x[0], m.config.num_classes]);
}

impl VisionTransformer {
    /// The model's tensors with their expected shapes: the patch embedding's, the position
    /// embeddings `[1, num_patches, d_model]`, each block's, the final normalization's and the
    /// head's.
    pub open spec fn shapes(&self) -> Seq<(Tensor, Seq<usize>)> {
        let c = self.config;
        let np = num_patches_spec(c.image_size as int, c.patch_size as int) as usize;
        self.patch_embed.shapes() + seq![(self.pos_embed, seq![1usize, np, c.d_model])]
            + seq_shapes(self.blocks@) + self.norm.shapes() + self.head.shapes()
    }

    /// A graph that holds the model's tensors with their expected shapes holds the model.
    pub proof fn lemma_shapes_wf_in(&self, g: Graph)
        requires
            shapes_hold(g, self.shapes()),
        ensures
            self.wf_in(g),
    {
        let c = self.config;
        let np = num_patches_spec(c.image_size as int, c.patch_size as int) as usize;
        let a = self.patch_embed.shapes();
        let b = seq![(self.pos_embed, seq![1usize, np, c.d_model])];
        let bs = seq_shapes(self.blocks@);
        let n = self.norm.shapes();
        let h = self.head.shapes();
        lemma_shapes_hold_concat(g, a + b + bs + n, h);
        lemma_shapes_hold_concat(g, a + b + bs, n);
        lemma_shapes_hold_concat(g, a + b, bs);
        lemma_shapes_hold_concat(g, a, b);
        self.patch_embed.lemma_wf_in_shapes(g);
        self.norm.lemma_wf_in_shapes(g);
        self.head.lemma_wf_in_shapes(g);
        assert(b[0].0 == self.pos_embed);
        lemma_seq_shapes_hold(g, self.blocks@);
        assert forall|k: int| 0 <= k < self.blocks@.len() implies (#[trigger] self.blocks@[k]).wf_in(g) by {
            assert(shapes_hold(g, self.blocks@[k].tensor_shapes()));
            self.blocks@[k].lemma_wf_in_shapes(g);
        }
    }
}

impl Module for VisionTransformer {
    open spec fn mode_is(&self, training: bool) -> bool {
        true
    }

    open spec fn param_list(&self) -> Seq<Tensor> {
        self.param_seq()
    }

    open spec fn tensor_shapes(&self) -> Seq<(Tensor, Seq<usize>)> {
        self.shapes()
    }

    open spec fn buffer_shapes(&self) -> Seq<(usize, Seq<usize>)> {
        Seq::empty()
    }

    /// Classifies the image batch `input` (see [`VisionTransformer::forward_vit`]); a patch
    /// size of 0, or a patch count that overflows, is refused with `InvalidArgument`.
    fn forward(&self, g: &mut Graph, input: &Tensor) -> (r: Result<Tensor, EngineError>)
        ensures
            (self.config.patch_size == 0 || num_patches_spec(self.config.image_size as int, self.config.patch_size as int) > usize::MAX)
                ==> (r matches Err(e) && e is InvalidArgument && *final(g) == *old(g)),
            (self.config.patch_size > 0 && num_patches_spec(self.config.image_size as int, self.config.patch_size as int) <= usize::MAX) ==> {
                &&& r is Ok <==> self.accepts(input.shape_of(*old(g)), self.pos_embed.shape_of(*old(g)))
                &&& r matches Ok(t) ==> t.shape_of(*final(g)) == self.out_shape(input.shape_of(*old(g)), self.pos_embed.shape_of(*old(g)))
            },
    {
        if self.config.patch_size == 0 {
            return Err(EngineError::InvalidArgument("patch_size must be positive".to_string()));
        }
        let side = self.config.image_size / self.config.patch_size;
        if side.checked_mul(side).is_none() {
            return Err(EngineError::InvalidArgument("number of patches overflows".to_string()));
        }
        proof {
            self.lemma_shapes_wf_in(*g);
        }
        self.forward_vit(g, input)
    }

    fn parameters(&self) -> (r: Vec<Tensor>) {
        let r = VisionTransformer::parameters(self);
        proof {
            assert forall|g: Graph| #[trigger] shapes_hold(g, self.tensor_shapes()) implies forall|k: int| 0 <= k < r@.len() ==> (#[trigger] r@[k]).valid(g) by {
                self.lemma_shapes_wf_in(g);
            }
        }
        r
    }

    /// Nothing switches between training and evaluation.
    fn train(&mut self) {
    }

    /// Nothing switches between training and evaluation.
    fn eval(&mut self) {
    }
}

} // verus!

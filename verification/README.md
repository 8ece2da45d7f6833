# nn_engine

A neural network engine whose graph logic is verified with Verus.

The library (`src/`) records computations as an autograd graph of tensor *shapes*: every
operation checks the shapes it is given, records a node saying how its result is computed, and
states in its contract exactly when it succeeds and what shape it produces. Reverse-mode
differentiation walks the graph in topological order and accumulates gradient shapes. On top
of the graph sit the layers (linear, convolution, pooling, normalizations, attention, recurrent
cells, embeddings, dropout, losses) and the models built from them (transformer language
models, LLaMA-style blocks with grouped-query attention and a key/value cache, BERT, vision
transformers, residual networks, Whisper-style speech models, mixtures of experts), each with
laws about the shapes it keeps. Values are described, not computed: `f32` constants appear as
bit patterns and initializers as descriptors.

Around the graph the library also holds the size-bucketed cache of GPU buffers, the dispatch
plans of the GPU kernels (accepted shapes, output sizes, parameter blocks, workgroup counts),
and the framing of SafeTensors files.

`app/` is the host side: a container for `f32` element data (`HostTensor`), initializers,
sampling and generation loops (which take the logit values from their caller), the attention
kernel, quantized layers, checkpoint and tensor files, and the WebGPU device and tensors that
run the planned kernels. Nothing here evaluates a recorded graph: the crate records shapes
and dataflow, and the element values of the tensor kernels are not part of it.

`tests/` exercises the library from outside.

//! The extension registry: the canonical set of known GLSL extension
//! names. The registry is read-only; membership is by exact ASCII name.
//! Two names switch the inclusion mode of the processor when enabled by an
//! `#extension` directive.

use vstd::prelude::*;

use crate::lex::text_eq_str;

verus! {

/// Whether a name is one of the known GLSL extensions.
pub open spec fn is_known_extension(s: Seq<char>) -> bool {
    ||| s == "GL_3DL_array_objects"@
    ||| s == "GL_AMD_gpu_shader_half_float"@
    ||| s == "GL_AMD_gpu_shader_half_float_fetch"@
    ||| s == "GL_AMD_gpu_shader_int16"@
    ||| s == "GL_AMD_shader_ballot"@
    ||| s == "GL_AMD_shader_fragment_mask"@
    ||| s == "GL_AMD_shader_image_load_store_lod"@
    ||| s == "GL_AMD_texture_gather_bias_lod"@
    ||| s == "GL_ARB_compute_shader"@
    ||| s == "GL_ARB_derivative_control"@
    ||| s == "GL_ARB_enhanced_layouts"@
    ||| s == "GL_ARB_explicit_attrib_location"@
    ||| s == "GL_ARB_explicit_uniform_location"@
    ||| s == "GL_ARB_fragment_shader_interlock"@
    ||| s == "GL_ARB_gpu_shader5"@
    ||| s == "GL_ARB_gpu_shader_fp64"@
    ||| s == "GL_ARB_gpu_shader_int64"@
    ||| s == "GL_ARB_post_depth_coverage"@
    ||| s == "GL_ARB_sample_shading"@
    ||| s == "GL_ARB_separate_shader_objects"@
    ||| s == "GL_ARB_shader_ballot"@
    ||| s == "GL_ARB_shader_bit_encoding"@
    ||| s == "GL_ARB_shader_draw_parameters"@
    ||| s == "GL_ARB_shader_group_vote"@
    ||| s == "GL_ARB_shader_image_load_store"@
    ||| s == "GL_ARB_shader_image_size"@
    ||| s == "GL_ARB_shader_stencil_export"@
    ||| s == "GL_ARB_shader_storage_buffer_object"@
    ||| s == "GL_ARB_shader_texture_image_samples"@
    ||| s == "GL_ARB_shader_texture_lod"@
    ||| s == "GL_ARB_shader_viewport_layer_array"@
    ||| s == "GL_ARB_shading_language_420pack"@
    ||| s == "GL_ARB_shading_language_include"@
    ||| s == "GL_ARB_shading_language_packing"@
    ||| s == "GL_ARB_sparse_texture2"@
    ||| s == "GL_ARB_sparse_texture_clamp"@
    ||| s == "GL_ARB_tessellation_shader"@
    ||| s == "GL_ARB_texture_cube_map_array"@
    ||| s == "GL_ARB_texture_gather"@
    ||| s == "GL_ARB_texture_multisample"@
    ||| s == "GL_ARB_texture_query_lod"@
    ||| s == "GL_ARB_texture_rectangle"@
    ||| s == "GL_ARB_uniform_buffer_object"@
    ||| s == "GL_ARB_vertex_attrib_64bit"@
    ||| s == "GL_ARB_viewport_array"@
    ||| s == "GL_EXT_YUV_target"@
    ||| s == "GL_EXT_blend_func_extended"@
    ||| s == "GL_EXT_buffer_reference"@
    ||| s == "GL_EXT_buffer_reference2"@
    ||| s == "GL_EXT_buffer_reference_uvec2"@
    ||| s == "GL_EXT_control_flow_attributes"@
    ||| s == "GL_EXT_debug_printf"@
    ||| s == "GL_EXT_demote_to_helper_invocation"@
    ||| s == "GL_EXT_device_group"@
    ||| s == "GL_EXT_frag_depth"@
    ||| s == "GL_EXT_fragment_invocation_density"@
    ||| s == "GL_EXT_fragment_shading_rate"@
    ||| s == "GL_EXT_geometry_shader"@
    ||| s == "GL_EXT_gpu_shader5"@
    ||| s == "GL_EXT_multiview"@
    ||| s == "GL_EXT_nonuniform_qualifier"@
    ||| s == "GL_EXT_null_initializer"@
    ||| s == "GL_EXT_post_depth_coverage"@
    ||| s == "GL_EXT_primitive_bounding_box"@
    ||| s == "GL_EXT_ray_flags_primitive_culling"@
    ||| s == "GL_EXT_ray_query"@
    ||| s == "GL_EXT_ray_tracing"@
    ||| s == "GL_EXT_samplerless_texture_functions"@
    ||| s == "GL_EXT_scalar_block_layout"@
    ||| s == "GL_EXT_shader_16bit_storage"@
    ||| s == "GL_EXT_shader_8bit_storage"@
    ||| s == "GL_EXT_shader_atomic_float"@
    ||| s == "GL_EXT_shader_atomic_int64"@
    ||| s == "GL_EXT_shader_explicit_arithmetic_types"@
    ||| s == "GL_EXT_shader_explicit_arithmetic_types_float16"@
    ||| s == "GL_EXT_shader_explicit_arithmetic_types_float32"@
    ||| s == "GL_EXT_shader_explicit_arithmetic_types_float64"@
    ||| s == "GL_EXT_shader_explicit_arithmetic_types_int16"@
    ||| s == "GL_EXT_shader_explicit_arithmetic_types_int32"@
    ||| s == "GL_EXT_shader_explicit_arithmetic_types_int64"@
    ||| s == "GL_EXT_shader_explicit_arithmetic_types_int8"@
    ||| s == "GL_EXT_shader_image_int64"@
    ||| s == "GL_EXT_shader_image_load_formatted"@
    ||| s == "GL_EXT_shader_implicit_conversions"@
    ||| s == "GL_EXT_shader_integer_mix"@
    ||| s == "GL_EXT_shader_io_blocks"@
    ||| s == "GL_EXT_shader_non_constant_global_initializers"@
    ||| s == "GL_EXT_shader_subgroup_extended_types_float16"@
    ||| s == "GL_EXT_shader_subgroup_extended_types_int16"@
    ||| s == "GL_EXT_shader_subgroup_extended_types_int64"@
    ||| s == "GL_EXT_shader_subgroup_extended_types_int8"@
    ||| s == "GL_EXT_shader_texture_image_samples"@
    ||| s == "GL_EXT_shader_texture_lod"@
    ||| s == "GL_EXT_shared_memory_block"@
    ||| s == "GL_EXT_terminate_invocation"@
    ||| s == "GL_EXT_tessellation_shader"@
    ||| s == "GL_EXT_texture_buffer"@
    ||| s == "GL_EXT_texture_cube_map_array"@
    ||| s == "GL_GOOGLE_cpp_style_line_directive"@
    ||| s == "GL_GOOGLE_include_directive"@
    ||| s == "GL_KHR_blend_equation_advanced"@
    ||| s == "GL_KHR_memory_scope_semantics"@
    ||| s == "GL_KHR_shader_subgroup_arithmetic"@
    ||| s == "GL_KHR_shader_subgroup_ballot"@
    ||| s == "GL_KHR_shader_subgroup_basic"@
    ||| s == "GL_KHR_shader_subgroup_clustered"@
    ||| s == "GL_KHR_shader_subgroup_quad"@
    ||| s == "GL_KHR_shader_subgroup_shuffle"@
    ||| s == "GL_KHR_shader_subgroup_shuffle_relative"@
    ||| s == "GL_KHR_shader_subgroup_vote"@
    ||| s == "GL_NVX_multiview_per_view_attributes"@
    ||| s == "GL_NV_compute_shader_derivatives"@
    ||| s == "GL_NV_conservative_raster_underestimation"@
    ||| s == "GL_NV_cooperative_matrix"@
    ||| s == "GL_NV_fragment_shader_barycentric"@
    ||| s == "GL_NV_geometry_shader_passthrough"@
    ||| s == "GL_NV_integer_cooperative_matrix"@
    ||| s == "GL_NV_mesh_shader"@
    ||| s == "GL_NV_ray_tracing"@
    ||| s == "GL_NV_sample_mask_override_coverage"@
    ||| s == "GL_NV_shader_atomic_int64"@
    ||| s == "GL_NV_shader_noperspective_interpolation"@
    ||| s == "GL_NV_shader_sm_builtins"@
    ||| s == "GL_NV_shader_subgroup_partitioned"@
    ||| s == "GL_NV_shader_texture_footprint"@
    ||| s == "GL_NV_shading_rate_image"@
    ||| s == "GL_NV_stereo_view_rendering"@
    ||| s == "GL_NV_viewport_array2"@
    ||| s == "GL_OES_EGL_image_external"@
    ||| s == "GL_OES_EGL_image_external_essl3"@
    ||| s == "GL_OES_geometry_point_size"@
    ||| s == "GL_OES_geometry_shader"@
    ||| s == "GL_OES_gpu_shader5"@
    ||| s == "GL_OES_primitive_bounding_box"@
    ||| s == "GL_OES_sample_variables"@
    ||| s == "GL_OES_shader_image_atomic"@
    ||| s == "GL_OES_shader_io_blocks"@
    ||| s == "GL_OES_shader_multisample_interpolation"@
    ||| s == "GL_OES_standard_derivatives"@
    ||| s == "GL_OES_tessellation_point_size"@
    ||| s == "GL_OES_tessellation_shader"@
    ||| s == "GL_OES_texture_3D"@
    ||| s == "GL_OES_texture_buffer"@
    ||| s == "GL_OES_texture_cube_map_array"@
    ||| s == "GL_OES_texture_storage_multisample_2d_array"@
    ||| s == "GL_OVR_multiview"@
}

/// Decide membership in the extension registry.
pub fn registry_contains(name: &Vec<char>) -> (r: bool)
    ensures
        r == is_known_extension(name@),
{
    text_eq_str(name, "GL_3DL_array_objects")
    || text_eq_str(name, "GL_AMD_gpu_shader_half_float")
    || text_eq_str(name, "GL_AMD_gpu_shader_half_float_fetch")
    || text_eq_str(name, "GL_AMD_gpu_shader_int16")
    || text_eq_str(name, "GL_AMD_shader_ballot")
    || text_eq_str(name, "GL_AMD_shader_fragment_mask")
    || text_eq_str(name, "GL_AMD_shader_image_load_store_lod")
    || text_eq_str(name, "GL_AMD_texture_gather_bias_lod")
    || text_eq_str(name, "GL_ARB_compute_shader")
    || text_eq_str(name, "GL_ARB_derivative_control")
    || text_eq_str(name, "GL_ARB_enhanced_layouts")
    || text_eq_str(name, "GL_ARB_explicit_attrib_location")
    || text_eq_str(name, "GL_ARB_explicit_uniform_location")
    || text_eq_str(name, "GL_ARB_fragment_shader_interlock")
    || text_eq_str(name, "GL_ARB_gpu_shader5")
    || text_eq_str(name, "GL_ARB_gpu_shader_fp64")
    || text_eq_str(name, "GL_ARB_gpu_shader_int64")
    || text_eq_str(name, "GL_ARB_post_depth_coverage")
    || text_eq_str(name, "GL_ARB_sample_shading")
    || text_eq_str(name, "GL_ARB_separate_shader_objects")
    || text_eq_str(name, "GL_ARB_shader_ballot")
    || text_eq_str(name, "GL_ARB_shader_bit_encoding")
    || text_eq_str(name, "GL_ARB_shader_draw_parameters")
    || text_eq_str(name, "GL_ARB_shader_group_vote")
    || text_eq_str(name, "GL_ARB_shader_image_load_store")
    || text_eq_str(name, "GL_ARB_shader_image_size")
    || text_eq_str(name, "GL_ARB_shader_stencil_export")
    || text_eq_str(name, "GL_ARB_shader_storage_buffer_object")
    || text_eq_str(name, "GL_ARB_shader_texture_image_samples")
    || text_eq_str(name, "GL_ARB_shader_texture_lod")
    || text_eq_str(name, "GL_ARB_shader_viewport_layer_array")
    || text_eq_str(name, "GL_ARB_shading_language_420pack")
    || text_eq_str(name, "GL_ARB_shading_language_include")
    || text_eq_str(name, "GL_ARB_shading_language_packing")
    || text_eq_str(name, "GL_ARB_sparse_texture2")
    || text_eq_str(name, "GL_ARB_sparse_texture_clamp")
    || text_eq_str(name, "GL_ARB_tessellation_shader")
    || text_eq_str(name, "GL_ARB_texture_cube_map_array")
    || text_eq_str(name, "GL_ARB_texture_gather")
    || text_eq_str(name, "GL_ARB_texture_multisample")
    || text_eq_str(name, "GL_ARB_texture_query_lod")
    || text_eq_str(name, "GL_ARB_texture_rectangle")
    || text_eq_str(name, "GL_ARB_uniform_buffer_object")
    || text_eq_str(name, "GL_ARB_vertex_attrib_64bit")
    || text_eq_str(name, "GL_ARB_viewport_array")
    || text_eq_str(name, "GL_EXT_YUV_target")
    || text_eq_str(name, "GL_EXT_blend_func_extended")
    || text_eq_str(name, "GL_EXT_buffer_reference")
    || text_eq_str(name, "GL_EXT_buffer_reference2")
    || text_eq_str(name, "GL_EXT_buffer_reference_uvec2")
    || text_eq_str(name, "GL_EXT_control_flow_attributes")
    || text_eq_str(name, "GL_EXT_debug_printf")
    || text_eq_str(name, "GL_EXT_demote_to_helper_invocation")
    || text_eq_str(name, "GL_EXT_device_group")
    || text_eq_str(name, "GL_EXT_frag_depth")
    || text_eq_str(name, "GL_EXT_fragment_invocation_density")
    || text_eq_str(name, "GL_EXT_fragment_shading_rate")
    || text_eq_str(name, "GL_EXT_geometry_shader")
    || text_eq_str(name, "GL_EXT_gpu_shader5")
    || text_eq_str(name, "GL_EXT_multiview")
    || text_eq_str(name, "GL_EXT_nonuniform_qualifier")
    || text_eq_str(name, "GL_EXT_null_initializer")
    || text_eq_str(name, "GL_EXT_post_depth_coverage")
    || text_eq_str(name, "GL_EXT_primitive_bounding_box")
    || text_eq_str(name, "GL_EXT_ray_flags_primitive_culling")
    || text_eq_str(name, "GL_EXT_ray_query")
    || text_eq_str(name, "GL_EXT_ray_tracing")
    || text_eq_str(name, "GL_EXT_samplerless_texture_functions")
    || text_eq_str(name, "GL_EXT_scalar_block_layout")
    || text_eq_str(name, "GL_EXT_shader_16bit_storage")
    || text_eq_str(name, "GL_EXT_shader_8bit_storage")
    || text_eq_str(name, "GL_EXT_shader_atomic_float")
    || text_eq_str(name, "GL_EXT_shader_atomic_int64")
    || text_eq_str(name, "GL_EXT_shader_explicit_arithmetic_types")
    || text_eq_str(name, "GL_EXT_shader_explicit_arithmetic_types_float16")
    || text_eq_str(name, "GL_EXT_shader_explicit_arithmetic_types_float32")
    || text_eq_str(name, "GL_EXT_shader_explicit_arithmetic_types_float64")
    || text_eq_str(name, "GL_EXT_shader_explicit_arithmetic_types_int16")
    || text_eq_str(name, "GL_EXT_shader_explicit_arithmetic_types_int32")
    || text_eq_str(name, "GL_EXT_shader_explicit_arithmetic_types_int64")
    || text_eq_str(name, "GL_EXT_shader_explicit_arithmetic_types_int8")
    || text_eq_str(name, "GL_EXT_shader_image_int64")
    || text_eq_str(name, "GL_EXT_shader_image_load_formatted")
    || text_eq_str(name, "GL_EXT_shader_implicit_conversions")
    || text_eq_str(name, "GL_EXT_shader_integer_mix")
    || text_eq_str(name, "GL_EXT_shader_io_blocks")
    || text_eq_str(name, "GL_EXT_shader_non_constant_global_initializers")
    || text_eq_str(name, "GL_EXT_shader_subgroup_extended_types_float16")
    || text_eq_str(name, "GL_EXT_shader_subgroup_extended_types_int16")
    || text_eq_str(name, "GL_EXT_shader_subgroup_extended_types_int64")
    || text_eq_str(name, "GL_EXT_shader_subgroup_extended_types_int8")
    || text_eq_str(name, "GL_EXT_shader_texture_image_samples")
    || text_eq_str(name, "GL_EXT_shader_texture_lod")
    || text_eq_str(name, "GL_EXT_shared_memory_block")
    || text_eq_str(name, "GL_EXT_terminate_invocation")
    || text_eq_str(name, "GL_EXT_tessellation_shader")
    || text_eq_str(name, "GL_EXT_texture_buffer")
    || text_eq_str(name, "GL_EXT_texture_cube_map_array")
    || text_eq_str(name, "GL_GOOGLE_cpp_style_line_directive")
    || text_eq_str(name, "GL_GOOGLE_include_directive")
    || text_eq_str(name, "GL_KHR_blend_equation_advanced")
    || text_eq_str(name, "GL_KHR_memory_scope_semantics")
    || text_eq_str(name, "GL_KHR_shader_subgroup_arithmetic")
    || text_eq_str(name, "GL_KHR_shader_subgroup_ballot")
    || text_eq_str(name, "GL_KHR_shader_subgroup_basic")
    || text_eq_str(name, "GL_KHR_shader_subgroup_clustered")
    || text_eq_str(name, "GL_KHR_shader_subgroup_quad")
    || text_eq_str(name, "GL_KHR_shader_subgroup_shuffle")
    || text_eq_str(name, "GL_KHR_shader_subgroup_shuffle_relative")
    || text_eq_str(name, "GL_KHR_shader_subgroup_vote")
    || text_eq_str(name, "GL_NVX_multiview_per_view_attributes")
    || text_eq_str(name, "GL_NV_compute_shader_derivatives")
    || text_eq_str(name, "GL_NV_conservative_raster_underestimation")
    || text_eq_str(name, "GL_NV_cooperative_matrix")
    || text_eq_str(name, "GL_NV_fragment_shader_barycentric")
    || text_eq_str(name, "GL_NV_geometry_shader_passthrough")
    || text_eq_str(name, "GL_NV_integer_cooperative_matrix")
    || text_eq_str(name, "GL_NV_mesh_shader")
    || text_eq_str(name, "GL_NV_ray_tracing")
    || text_eq_str(name, "GL_NV_sample_mask_override_coverage")
    || text_eq_str(name, "GL_NV_shader_atomic_int64")
    || text_eq_str(name, "GL_NV_shader_noperspective_interpolation")
    || text_eq_str(name, "GL_NV_shader_sm_builtins")
    || text_eq_str(name, "GL_NV_shader_subgroup_partitioned")
    || text_eq_str(name, "GL_NV_shader_texture_footprint")
    || text_eq_str(name, "GL_NV_shading_rate_image")
    || text_eq_str(name, "GL_NV_stereo_view_rendering")
    || text_eq_str(name, "GL_NV_viewport_array2")
    || text_eq_str(name, "GL_OES_EGL_image_external")
    || text_eq_str(name, "GL_OES_EGL_image_external_essl3")
    || text_eq_str(name, "GL_OES_geometry_point_size")
    || text_eq_str(name, "GL_OES_geometry_shader")
    || text_eq_str(name, "GL_OES_gpu_shader5")
    || text_eq_str(name, "GL_OES_primitive_bounding_box")
    || text_eq_str(name, "GL_OES_sample_variables")
    || text_eq_str(name, "GL_OES_shader_image_atomic")
    || text_eq_str(name, "GL_OES_shader_io_blocks")
    || text_eq_str(name, "GL_OES_shader_multisample_interpolation")
    || text_eq_str(name, "GL_OES_standard_derivatives")
    || text_eq_str(name, "GL_OES_tessellation_point_size")
    || text_eq_str(name, "GL_OES_tessellation_shader")
    || text_eq_str(name, "GL_OES_texture_3D")
    || text_eq_str(name, "GL_OES_texture_buffer")
    || text_eq_str(name, "GL_OES_texture_cube_map_array")
    || text_eq_str(name, "GL_OES_texture_storage_multisample_2d_array")
    || text_eq_str(name, "GL_OVR_multiview")
}

/// Append one known name to a listing, keeping every entry known.
fn push_known(r: &mut Vec<Vec<char>>, s: &str)
    requires
        is_known_extension(s@),
        forall|i: int|
            0 <= i < old(r).deep_view().len() ==> is_known_extension(
                #[trigger] old(r).deep_view()[i],
            ),
    ensures
        final(r).deep_view() == old(r).deep_view().push(s@),
        forall|i: int|
            0 <= i < final(r).deep_view().len() ==> is_known_extension(
                #[trigger] final(r).deep_view()[i],
            ),
{
    let ghost pre = r.deep_view();
    let name = crate::lex::chars_of(s);
    let ghost nm = name.deep_view();
    proof {
        assert(nm =~= s@);
    }
    r.push(name);
    proof {
        assert(r.deep_view() =~= pre.push(nm));
        assert forall|i: int|
            0 <= i < r.deep_view().len() implies is_known_extension(
            #[trigger] r.deep_view()[i],
        ) by {
            if i < pre.len() {
                assert(r.deep_view()[i] == pre[i]);
            } else {
                assert(r.deep_view()[i] == s@);
            }
        }
    }
}

/// The registry's names, for diagnostics: every listed name is a known
/// extension, and the two inclusion extensions are among them.
#[verifier::rlimit(100)]
pub fn registry_names() -> (r: Vec<Vec<char>>)
    ensures
        forall|i: int|
            0 <= i < r.deep_view().len() ==> is_known_extension(#[trigger] r.deep_view()[i]),
        r.deep_view().len() == 146,
{
    let mut r: Vec<Vec<char>> = Vec::new();
    proof {
        assert(r.deep_view() =~= Seq::<Seq<char>>::empty());
    }
    push_known(&mut r, "GL_3DL_array_objects");
    push_known(&mut r, "GL_AMD_gpu_shader_half_float");
    push_known(&mut r, "GL_AMD_gpu_shader_half_float_fetch");
    push_known(&mut r, "GL_AMD_gpu_shader_int16");
    push_known(&mut r, "GL_AMD_shader_ballot");
    push_known(&mut r, "GL_AMD_shader_fragment_mask");
    push_known(&mut r, "GL_AMD_shader_image_load_store_lod");
    push_known(&mut r, "GL_AMD_texture_gather_bias_lod");
    push_known(&mut r, "GL_ARB_compute_shader");
    push_known(&mut r, "GL_ARB_derivative_control");
    push_known(&mut r, "GL_ARB_enhanced_layouts");
    push_known(&mut r, "GL_ARB_explicit_attrib_location");
    push_known(&mut r, "GL_ARB_explicit_uniform_location");
    push_known(&mut r, "GL_ARB_fragment_shader_interlock");
    push_known(&mut r, "GL_ARB_gpu_shader5");
    push_known(&mut r, "GL_ARB_gpu_shader_fp64");
    push_known(&mut r, "GL_ARB_gpu_shader_int64");
    push_known(&mut r, "GL_ARB_post_depth_coverage");
    push_known(&mut r, "GL_ARB_sample_shading");
    push_known(&mut r, "GL_ARB_separate_shader_objects");
    push_known(&mut r, "GL_ARB_shader_ballot");
    push_known(&mut r, "GL_ARB_shader_bit_encoding");
    push_known(&mut r, "GL_ARB_shader_draw_parameters");
    push_known(&mut r, "GL_ARB_shader_group_vote");
    push_known(&mut r, "GL_ARB_shader_image_load_store");
    push_known(&mut r, "GL_ARB_shader_image_size");
    push_known(&mut r, "GL_ARB_shader_stencil_export");
    push_known(&mut r, "GL_ARB_shader_storage_buffer_object");
    push_known(&mut r, "GL_ARB_shader_texture_image_samples");
    push_known(&mut r, "GL_ARB_shader_texture_lod");
    push_known(&mut r, "GL_ARB_shader_viewport_layer_array");
    push_known(&mut r, "GL_ARB_shading_language_420pack");
    push_known(&mut r, "GL_ARB_shading_language_include");
    push_known(&mut r, "GL_ARB_shading_language_packing");
    push_known(&mut r, "GL_ARB_sparse_texture2");
    push_known(&mut r, "GL_ARB_sparse_texture_clamp");
    push_known(&mut r, "GL_ARB_tessellation_shader");
    push_known(&mut r, "GL_ARB_texture_cube_map_array");
    push_known(&mut r, "GL_ARB_texture_gather");
    push_known(&mut r, "GL_ARB_texture_multisample");
    push_known(&mut r, "GL_ARB_texture_query_lod");
    push_known(&mut r, "GL_ARB_texture_rectangle");
    push_known(&mut r, "GL_ARB_uniform_buffer_object");
    push_known(&mut r, "GL_ARB_vertex_attrib_64bit");
    push_known(&mut r, "GL_ARB_viewport_array");
    push_known(&mut r, "GL_EXT_YUV_target");
    push_known(&mut r, "GL_EXT_blend_func_extended");
    push_known(&mut r, "GL_EXT_buffer_reference");
    push_known(&mut r, "GL_EXT_buffer_reference2");
    push_known(&mut r, "GL_EXT_buffer_reference_uvec2");
    push_known(&mut r, "GL_EXT_control_flow_attributes");
    push_known(&mut r, "GL_EXT_debug_printf");
    push_known(&mut r, "GL_EXT_demote_to_helper_invocation");
    push_known(&mut r, "GL_EXT_device_group");
    push_known(&mut r, "GL_EXT_frag_depth");
    push_known(&mut r, "GL_EXT_fragment_invocation_density");
    push_known(&mut r, "GL_EXT_fragment_shading_rate");
    push_known(&mut r, "GL_EXT_geometry_shader");
    push_known(&mut r, "GL_EXT_gpu_shader5");
    push_known(&mut r, "GL_EXT_multiview");
    push_known(&mut r, "GL_EXT_nonuniform_qualifier");
    push_known(&mut r, "GL_EXT_null_initializer");
    push_known(&mut r, "GL_EXT_post_depth_coverage");
    push_known(&mut r, "GL_EXT_primitive_bounding_box");
    push_known(&mut r, "GL_EXT_ray_flags_primitive_culling");
    push_known(&mut r, "GL_EXT_ray_query");
    push_known(&mut r, "GL_EXT_ray_tracing");
    push_known(&mut r, "GL_EXT_samplerless_texture_functions");
    push_known(&mut r, "GL_EXT_scalar_block_layout");
    push_known(&mut r, "GL_EXT_shader_16bit_storage");
    push_known(&mut r, "GL_EXT_shader_8bit_storage");
    push_known(&mut r, "GL_EXT_shader_atomic_float");
    push_known(&mut r, "GL_EXT_shader_atomic_int64");
    push_known(&mut r, "GL_EXT_shader_explicit_arithmetic_types");
    push_known(&mut r, "GL_EXT_shader_explicit_arithmetic_types_float16");
    push_known(&mut r, "GL_EXT_shader_explicit_arithmetic_types_float32");
    push_known(&mut r, "GL_EXT_shader_explicit_arithmetic_types_float64");
    push_known(&mut r, "GL_EXT_shader_explicit_arithmetic_types_int16");
    push_known(&mut r, "GL_EXT_shader_explicit_arithmetic_types_int32");
    push_known(&mut r, "GL_EXT_shader_explicit_arithmetic_types_int64");
    push_known(&mut r, "GL_EXT_shader_explicit_arithmetic_types_int8");
    push_known(&mut r, "GL_EXT_shader_image_int64");
    push_known(&mut r, "GL_EXT_shader_image_load_formatted");
    push_known(&mut r, "GL_EXT_shader_implicit_conversions");
    push_known(&mut r, "GL_EXT_shader_integer_mix");
    push_known(&mut r, "GL_EXT_shader_io_blocks");
    push_known(&mut r, "GL_EXT_shader_non_constant_global_initializers");
    push_known(&mut r, "GL_EXT_shader_subgroup_extended_types_float16");
    push_known(&mut r, "GL_EXT_shader_subgroup_extended_types_int16");
    push_known(&mut r, "GL_EXT_shader_subgroup_extended_types_int64");
    push_known(&mut r, "GL_EXT_shader_subgroup_extended_types_int8");
    push_known(&mut r, "GL_EXT_shader_texture_image_samples");
    push_known(&mut r, "GL_EXT_shader_texture_lod");
    push_known(&mut r, "GL_EXT_shared_memory_block");
    push_known(&mut r, "GL_EXT_terminate_invocation");
    push_known(&mut r, "GL_EXT_tessellation_shader");
    push_known(&mut r, "GL_EXT_texture_buffer");
    push_known(&mut r, "GL_EXT_texture_cube_map_array");
    push_known(&mut r, "GL_GOOGLE_cpp_style_line_directive");
    push_known(&mut r, "GL_GOOGLE_include_directive");
    push_known(&mut r, "GL_KHR_blend_equation_advanced");
    push_known(&mut r, "GL_KHR_memory_scope_semantics");
    push_known(&mut r, "GL_KHR_shader_subgroup_arithmetic");
    push_known(&mut r, "GL_KHR_shader_subgroup_ballot");
    push_known(&mut r, "GL_KHR_shader_subgroup_basic");
    push_known(&mut r, "GL_KHR_shader_subgroup_clustered");
    push_known(&mut r, "GL_KHR_shader_subgroup_quad");
    push_known(&mut r, "GL_KHR_shader_subgroup_shuffle");
    push_known(&mut r, "GL_KHR_shader_subgroup_shuffle_relative");
    push_known(&mut r, "GL_KHR_shader_subgroup_vote");
    push_known(&mut r, "GL_NVX_multiview_per_view_attributes");
    push_known(&mut r, "GL_NV_compute_shader_derivatives");
    push_known(&mut r, "GL_NV_conservative_raster_underestimation");
    push_known(&mut r, "GL_NV_cooperative_matrix");
    push_known(&mut r, "GL_NV_fragment_shader_barycentric");
    push_known(&mut r, "GL_NV_geometry_shader_passthrough");
    push_known(&mut r, "GL_NV_integer_cooperative_matrix");
    push_known(&mut r, "GL_NV_mesh_shader");
    push_known(&mut r, "GL_NV_ray_tracing");
    push_known(&mut r, "GL_NV_sample_mask_override_coverage");
    push_known(&mut r, "GL_NV_shader_atomic_int64");
    push_known(&mut r, "GL_NV_shader_noperspective_interpolation");
    push_known(&mut r, "GL_NV_shader_sm_builtins");
    push_known(&mut r, "GL_NV_shader_subgroup_partitioned");
    push_known(&mut r, "GL_NV_shader_texture_footprint");
    push_known(&mut r, "GL_NV_shading_rate_image");
    push_known(&mut r, "GL_NV_stereo_view_rendering");
    push_known(&mut r, "GL_NV_viewport_array2");
    push_known(&mut r, "GL_OES_EGL_image_external");
    push_known(&mut r, "GL_OES_EGL_image_external_essl3");
    push_known(&mut r, "GL_OES_geometry_point_size");
    push_known(&mut r, "GL_OES_geometry_shader");
    push_known(&mut r, "GL_OES_gpu_shader5");
    push_known(&mut r, "GL_OES_primitive_bounding_box");
    push_known(&mut r, "GL_OES_sample_variables");
    push_known(&mut r, "GL_OES_shader_image_atomic");
    push_known(&mut r, "GL_OES_shader_io_blocks");
    push_known(&mut r, "GL_OES_shader_multisample_interpolation");
    push_known(&mut r, "GL_OES_standard_derivatives");
    push_known(&mut r, "GL_OES_tessellation_point_size");
    push_known(&mut r, "GL_OES_tessellation_shader");
    push_known(&mut r, "GL_OES_texture_3D");
    push_known(&mut r, "GL_OES_texture_buffer");
    push_known(&mut r, "GL_OES_texture_cube_map_array");
    push_known(&mut r, "GL_OES_texture_storage_multisample_2d_array");
    push_known(&mut r, "GL_OVR_multiview");
    r
}

} // verus!

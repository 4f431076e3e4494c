use rotastellar::errors::DistributedError;
use rotastellar::federated::{
    AggregationStrategy, CompressedGradient, CompressionConfig, CompressionMethod,
    FederatedClient, GradientAggregator, GradientCompressor,
};
use rotastellar::mesh::{create_constellation, OrbitalNode, SpaceMesh};
use rotastellar::partitioning::{
    ModelProfile, OptimizationObjective, PartitionOptimizer, PlacementLocation,
};
use rotastellar::sync::{Priority, PriorityQueue, SyncScheduler};
use rotastellar::topology::{NodeConfig, NodeType, Topology, TrainingMetrics};

#[test]
fn version_is_set() {
    assert!(!rotastellar::VERSION.is_empty());
}

#[test]
fn lib_version_is_set() {
    assert!(!rotastellar::VERSION.is_empty());
}

#[test]
fn test_model_profile() {
    let model = ModelProfile::create_transformer(6, 768, 50000, 512);
    assert!(model.num_layers() > 10);
    assert!(model.total_params() > 0);
}

#[test]
fn test_partition_optimizer() {
    let model = ModelProfile::create_transformer(6, 768, 50000, 512);
    let optimizer = PartitionOptimizer::new_default();
    let plan = optimizer.optimize(&model, OptimizationObjective::Balance);

    assert!(!plan.placements.is_empty());
    assert!(plan.total_latency_ns > 0);
}

// The load-balancing objective picks the smallest prefix whose cumulative
// FLOPs reach the ground share of the total.
#[test]
fn test_balanced_split_prefix() {
    let mut model = ModelProfile::new("m");
    for flops in [100u64, 100, 100, 100] {
        model.add_layer(rotastellar::partitioning::LayerProfile {
            name: String::from("l"),
            layer_type: rotastellar::partitioning::LayerType::Linear,
            params: 1,
            flops,
            input_size: 4,
            output_size: 4,
        });
    }
    // Equal capacities: target = 400 * 1 / 2 = 200, reached by two layers.
    let optimizer = PartitionOptimizer::new(1000, 1000);
    let plan = optimizer.optimize(&model, OptimizationObjective::Balance);
    let ground: Vec<_> = plan
        .placements
        .iter()
        .filter(|p| p.location == PlacementLocation::Ground)
        .collect();
    assert_eq!(ground.len(), 2);
}

#[test]
fn test_min_latency_split_is_optimal() {
    let model = ModelProfile::create_transformer(2, 64, 1000, 64);
    let optimizer = PartitionOptimizer::new_default();
    let best = optimizer.optimize(&model, OptimizationObjective::MinimizeLatency);
    // The exhaustive objective is no worse than any other objective's cut.
    let balanced = optimizer.optimize(&model, OptimizationObjective::Balance);
    let bandwidth = optimizer.optimize(&model, OptimizationObjective::MinimizeBandwidth);
    assert!(best.total_latency_ns <= balanced.total_latency_ns);
    assert!(best.total_latency_ns <= bandwidth.total_latency_ns);
}

#[test]
fn test_priority_queue() {
    let mut queue = PriorityQueue::new();
    queue.add_task("node-1", 1000, Priority::Low, "low task");
    queue.add_task("node-2", 2000, Priority::Critical, "critical task");
    queue.add_task("node-3", 1500, Priority::High, "high task");

    let task = queue.pop_task().unwrap();
    assert_eq!(task.priority, Priority::Critical);
}

#[test]
fn test_priority_queue_order_and_ids() {
    let mut queue = PriorityQueue::new();
    let id1 = queue.add_task("a", 1, Priority::Normal, "first normal");
    assert_eq!(id1, "task_1");
    queue.add_task("b", 2, Priority::Normal, "second normal");
    queue.add_task("c", 3, Priority::Critical, "critical");

    assert_eq!(queue.size(), 3);
    assert_eq!(queue.total_bytes_pending(), 6);
    assert_eq!(queue.peek_task().unwrap().priority, Priority::Critical);
    assert_eq!(queue.pop_task().unwrap().priority, Priority::Critical);
    // FIFO within a tier.
    assert_eq!(queue.pop_task().unwrap().task_id, "task_1");
    assert_eq!(queue.pop_task().unwrap().task_id, "task_2");
    assert!(queue.pop_task().is_none());
    assert!(queue.is_empty());
}

#[test]
fn test_sync_scheduler() {
    let mut scheduler = SyncScheduler::new();
    scheduler.schedule_sync("orbital-1", 1024 * 1024, Priority::High, "Upload gradients");

    assert_eq!(scheduler.queue.size(), 1);
    let summary = scheduler.get_schedule_summary();
    assert_eq!(summary.pending_tasks, 1);
    assert_eq!(summary.pending_bytes, 1024 * 1024);
    assert_eq!(summary.orbital_period_ms, scheduler.orbital_period_ms());
    assert!(scheduler.orbital_period_ms() > 90 * 60 * 1000);
    assert!(scheduler.orbital_period_ms() < 96 * 60 * 1000);
    assert!(scheduler.orbits_per_day_milli() > 15000);
    assert!(scheduler.predict_passes().is_empty());
}

#[test]
fn test_compression_config() {
    let balanced = CompressionConfig::balanced();
    assert_eq!(balanced.method, CompressionMethod::TopKQuantized);
    assert_eq!(balanced.k_ratio_ppm, 10000);

    let high = CompressionConfig::high_compression();
    assert!(
        high.theoretical_compression_ratio_ppm() < balanced.theoretical_compression_ratio_ppm()
    );
}

// More quantization bits mean a larger theoretical size at equal sparsity.
#[test]
fn test_ratio_grows_with_bits() {
    let eight = CompressionConfig::new(CompressionMethod::TopKQuantized, 10000, 8).unwrap();
    let sixteen = CompressionConfig::new(CompressionMethod::TopKQuantized, 10000, 16).unwrap();
    assert_eq!(eight.theoretical_compression_ratio_ppm(), 12500);
    assert_eq!(sixteen.theoretical_compression_ratio_ppm(), 15000);
    assert!(
        eight.theoretical_compression_ratio_ppm() < sixteen.theoretical_compression_ratio_ppm()
    );
}

#[test]
fn test_unsupported_parameter() {
    let bad_bits = CompressionConfig::new(CompressionMethod::TopK, 10000, 5);
    assert_eq!(bad_bits, Err(DistributedError::UnsupportedParameter));
    let bad_ratio = CompressionConfig::new(CompressionMethod::TopK, 0, 8);
    assert_eq!(bad_ratio, Err(DistributedError::UnsupportedParameter));
}

#[test]
fn test_gradient_compressor() {
    let config = CompressionConfig::balanced();
    let mut compressor = GradientCompressor::new(config).unwrap();

    let gradients: Vec<i64> = (0..1000).map(|i| ((i * 37) % 201) - 100).collect();
    let compressed = compressor.compress(&gradients);

    assert!(compressed.indices.len() <= 100);
    assert!(compressed.compression_ratio_ppm < 500000);

    let decompressed = compressor.decompress(&compressed);
    assert_eq!(decompressed.len(), gradients.len());
}

// Compression with no compression method is lossless: every index is
// covered in order, the ratio is one, and decompression is the identity.
#[test]
fn test_no_compression_lossless() {
    let config =
        CompressionConfig::new(CompressionMethod::NoCompression, 1000000, 8).unwrap();
    let mut compressor = GradientCompressor::new(config).unwrap();
    let gradients: Vec<i64> = vec![5, -3, 0, 7, -9];
    let compressed = compressor.compress(&gradients);

    assert_eq!(compressed.indices, vec![0, 1, 2, 3, 4]);
    assert_eq!(compressed.values, gradients);
    assert_eq!(compressed.compression_ratio_ppm, 1000000);
    assert_eq!(compressed.compressed_size, 5 * 4);

    let decompressed = compressor.decompress(&compressed);
    assert_eq!(decompressed, gradients);
}

// Top-K keeps the k largest magnitudes; decompression restores them
// exactly and leaves zeros elsewhere.
#[test]
fn test_topk_roundtrip_exact() {
    let mut config = CompressionConfig::new(CompressionMethod::TopK, 400000, 8).unwrap();
    config.error_feedback = false;
    let mut compressor = GradientCompressor::new(config).unwrap();
    let gradients: Vec<i64> = vec![10, -50, 20, 5, -40];
    // k = ceil(5 * 0.4) = 2: positions 1 (-50) and 4 (-40).
    let compressed = compressor.compress(&gradients);
    assert_eq!(compressed.indices, vec![1, 4]);
    assert_eq!(compressed.values, vec![-50, -40]);
    let sparsity = compressed.sparsity_ppm();
    assert_eq!(sparsity, 1000000 - 2 * 1000000 / 5);

    let decompressed = compressor.decompress(&compressed);
    assert_eq!(decompressed, vec![0, -50, 0, 0, -40]);
}

// Ties in magnitude break toward the earlier index.
#[test]
fn test_topk_stable_ties() {
    let mut config = CompressionConfig::new(CompressionMethod::TopK, 200000, 8).unwrap();
    config.error_feedback = false;
    let mut compressor = GradientCompressor::new(config).unwrap();
    let gradients: Vec<i64> = vec![7, -7, 7, -7, 7];
    let compressed = compressor.compress(&gradients);
    assert_eq!(compressed.indices, vec![0]);
    assert_eq!(compressed.values, vec![7]);
}

// Uniform quantization reproduces the extremes of the selected values
// exactly and keeps everything inside their range.
#[test]
fn test_quantization_endpoints() {
    let config = CompressionConfig::low_compression();
    let mut compressor = GradientCompressor::new(config).unwrap();
    let gradients: Vec<i64> = vec![0, 1000000, 250000, 770000];
    let compressed = compressor.compress(&gradients);
    assert_eq!(compressed.indices, vec![0, 1, 2, 3]);
    assert_eq!(compressed.values[0], 0);
    assert_eq!(compressed.values[1], 1000000);
    for v in &compressed.values {
        assert!(0 <= *v && *v <= 1000000);
    }
    assert_eq!(compressed.quantization_bits, Some(16));
}

// Error feedback carries the discarded remainder into the next round.
#[test]
fn test_error_feedback_carryover() {
    let config = CompressionConfig::new(CompressionMethod::TopK, 200000, 8).unwrap();
    let mut compressor = GradientCompressor::new(config).unwrap();
    // k = 1: only the largest survives; the rest becomes residual.
    let first = compressor.compress(&vec![100, 10, 20, 30, 40]);
    assert_eq!(first.indices, vec![0]);
    // Second round adds the residual: working = [0+0, 10+10, ...].
    let second = compressor.compress(&vec![0, 10, 0, 0, 0]);
    assert_eq!(second.indices, vec![4]);
    assert_eq!(second.values, vec![40]);
}

#[test]
fn test_client_and_aggregator_stats() {
    let client = FederatedClient::ground("gs-1");
    let stats = client.get_stats();
    assert_eq!(stats.node_id, "gs-1");
    assert_eq!(stats.node_type, "ground");
    assert_eq!(stats.local_steps, 0);
    assert_eq!(
        stats.compression_ratio_ppm,
        client.compression.theoretical_compression_ratio_ppm()
    );

    let aggregator = GradientAggregator::new(AggregationStrategy::FedAvg, 2);
    let astats = aggregator.get_stats();
    assert_eq!(astats.strategy, AggregationStrategy::FedAvg);
    assert_eq!(astats.round, 0);
    assert_eq!(astats.pending_participants, 0);
    assert_eq!(astats.min_participants, 2);
}

#[test]
fn test_federated_client() {
    let mut client = FederatedClient::orbital("sat-1");
    let model_params: Vec<i64> = vec![100000, 200000, 300000, 400000, 500000];
    let gradients = client.compute_gradients(&model_params, &Vec::new());

    assert_eq!(gradients.len(), model_params.len());

    let compressed = client.compress(&gradients);
    assert!(compressed.original_size == gradients.len());
}

#[test]
fn test_apply_update() {
    let client = FederatedClient::ground("gs-1");
    let params: Vec<i64> = vec![1000000, 2000000];
    let update: Vec<i64> = vec![500000, -500000];
    // Learning rate 0.5: p - u/2.
    let next = client.apply_update(&params, &update, 500000);
    assert_eq!(next, vec![750000, 2250000]);
}

#[test]
fn test_gradient_aggregator() {
    let mut aggregator = GradientAggregator::new(AggregationStrategy::FedAvg, 2);

    let grad1 = CompressedGradient {
        indices: vec![0, 1, 2],
        values: vec![100000, 200000, 300000],
        shape: vec![10],
        original_size: 10,
        compressed_size: 24,
        compression_ratio_ppm: 600000,
        quantization_bits: None,
    };

    let grad2 = CompressedGradient {
        indices: vec![1, 2, 3],
        values: vec![200000, 400000, 100000],
        shape: vec![10],
        original_size: 10,
        compressed_size: 24,
        compression_ratio_ppm: 600000,
        quantization_bits: None,
    };

    aggregator.receive_gradients("node-1", grad1, 100);
    aggregator.receive_gradients("node-2", grad2, 100);

    assert!(aggregator.ready_to_aggregate());

    let result = aggregator.aggregate().unwrap();
    assert_eq!(result.len(), 10);
}

// With equal sample counts, federated averaging yields the arithmetic
// mean at every jointly covered index.
#[test]
fn test_fedavg_equal_samples_mean() {
    let mut aggregator = GradientAggregator::new(AggregationStrategy::FedAvg, 2);
    let grad1 = CompressedGradient {
        indices: vec![0, 1],
        values: vec![100000, 300000],
        shape: vec![4],
        original_size: 4,
        compressed_size: 16,
        compression_ratio_ppm: 500000,
        quantization_bits: None,
    };
    let grad2 = CompressedGradient {
        indices: vec![0, 1],
        values: vec![300000, 500000],
        shape: vec![4],
        original_size: 4,
        compressed_size: 16,
        compression_ratio_ppm: 500000,
        quantization_bits: None,
    };
    aggregator.receive_gradients("a", grad1, 7);
    aggregator.receive_gradients("b", grad2, 7);
    let result = aggregator.aggregate().unwrap();
    assert_eq!(result[0], 200000);
    assert_eq!(result[1], 400000);
    assert_eq!(result[2], 0);
    assert_eq!(result[3], 0);
}

#[test]
fn test_aggregate_no_pending() {
    let mut aggregator = GradientAggregator::new(AggregationStrategy::FedAvg, 1);
    assert_eq!(aggregator.aggregate(), Err(DistributedError::NoPendingData));
}

// A submission from the same node overwrites, not appends.
#[test]
fn test_receive_upserts() {
    let mut aggregator = GradientAggregator::new(AggregationStrategy::AsyncFedAvg, 1);
    let mk = |v: i64| CompressedGradient {
        indices: vec![0],
        values: vec![v],
        shape: vec![2],
        original_size: 2,
        compressed_size: 8,
        compression_ratio_ppm: 500000,
        quantization_bits: None,
    };
    aggregator.receive_gradients("n", mk(100), 1);
    aggregator.receive_gradients("n", mk(900), 1);
    assert_eq!(aggregator.num_participants(), 1);
    let result = aggregator.aggregate().unwrap();
    assert_eq!(result[0], 900);
}

#[test]
fn test_space_mesh() {
    let mut mesh = SpaceMesh::new(5000000);
    mesh.add_node(OrbitalNode::new("sat-1").with_orbit(0, 0));
    mesh.add_node(OrbitalNode::new("sat-2").with_orbit(0, 30000));
    mesh.add_node(OrbitalNode::new("sat-3").with_orbit(0, 60000));
    mesh.update_topology();

    let stats = mesh.get_mesh_stats();
    assert_eq!(stats.total_nodes, 3);
}

#[test]
fn test_create_constellation() {
    let mesh = create_constellation("test", 2, 4, 550000, 53000, 5000000);
    let stats = mesh.get_mesh_stats();
    assert_eq!(stats.total_nodes, 8);
}

// With a sufficiently large inter-satellite-link range, a constellation
// has a nonzero active-link count.
#[test]
fn test_constellation_links_with_large_range() {
    let mesh = create_constellation("big", 2, 4, 8000000, 53000, 30000000);
    let stats = mesh.get_mesh_stats();
    assert_eq!(stats.total_nodes, 8);
    assert!(stats.active_links > 0);
}

// Three satellites evenly spaced at a high common altitude, with the link
// range above their spacing, form a fully connected ring: two links each.
#[test]
fn test_three_satellite_ring() {
    let mut mesh = SpaceMesh::new(26000000);
    for (name, anomaly) in [("A", 0u64), ("B", 120000), ("C", 240000)] {
        let mut n = OrbitalNode::new(name).with_orbit(0, anomaly);
        n.orbit_altitude_m = 8000000;
        n.orbit_inclination_mdeg = 0;
        n.isl_range_m = 26000000;
        mesh.add_node(n);
    }
    mesh.update_topology();
    let stats = mesh.get_mesh_stats();
    assert_eq!(stats.total_nodes, 3);
    assert_eq!(stats.active_links, 3);
    assert_eq!(stats.avg_links_per_node_centi, 200);

    // Routing a node to itself: zero hops, zero latency, unconstrained
    // bandwidth.
    let self_route = mesh.find_route("A", "A");
    assert_eq!(self_route.path, vec!["A".to_string()]);
    assert_eq!(self_route.num_hops, 0);
    assert_eq!(self_route.total_latency_ns, 0);
    assert_eq!(self_route.min_bandwidth_mbps, u64::MAX);

    // A direct neighbor route is a single hop with the link bandwidth.
    let route = mesh.find_route("A", "B");
    assert!(route.is_valid());
    assert_eq!(route.num_hops, 1);
    assert_eq!(route.min_bandwidth_mbps, 10000);
    assert!(route.total_latency_ns > 0);

    // An unknown id yields an explicitly invalid route, not an error.
    let missing = mesh.find_route("A", "nowhere");
    assert!(!missing.is_valid());
    assert_eq!(missing.num_hops, 0);
}

#[test]
fn test_node_config() {
    let orbital = NodeConfig::orbital("sat-1", 550000, 10000);
    assert_eq!(orbital.node_type, NodeType::Orbital);
    assert_eq!(orbital.orbit_altitude_m, Some(550000));

    let ground = NodeConfig::ground("gs-1", 51500000, -100000, 100000);
    assert_eq!(ground.node_type, NodeType::Ground);
    assert_eq!(ground.location_udeg, Some((51500000, -100000)));
}

#[test]
fn test_topology() {
    let mut topo = Topology::new();
    topo.add_node(NodeConfig::orbital("sat-1", 550000, 10000));
    topo.add_node(NodeConfig::ground("gs-1", 51500000, -100000, 100000));

    assert_eq!(topo.node_count(), 2);
    assert_eq!(topo.orbital_nodes().len(), 1);
    assert_eq!(topo.ground_nodes().len(), 1);
    assert_eq!(topo.total_compute_gflops(), 110000);
}

#[test]
fn test_topology_connections() {
    let mut topo = Topology::new();
    topo.add_node(NodeConfig::orbital("sat-1", 550000, 10000));
    topo.add_node(NodeConfig::ground("gs-1", 0, 0, 100000));
    assert!(topo.add_connection("sat-1", "gs-1", 100).is_ok());
    assert_eq!(
        topo.add_connection("sat-1", "nowhere", 100),
        Err(DistributedError::InvalidReference)
    );
    topo.remove_node("sat-1");
    assert_eq!(topo.node_count(), 1);
    assert!(topo.get_node("sat-1").is_none());
    assert!(topo.get_node("gs-1").is_some());
}

#[test]
fn test_training_metrics() {
    let mut metrics = TrainingMetrics::new();
    metrics.end_step(Some(500000), 32, 100);
    metrics.end_step(Some(400000), 32, 100);
    metrics.record_sync(1000, 500, 50);

    assert_eq!(metrics.total_steps, 2);
    assert_eq!(metrics.total_samples, 64);
    assert_eq!(metrics.sync_count, 1);
    assert_eq!(metrics.average_loss(), Some(450000));
    assert_eq!(metrics.total_bytes_transferred(), 1500);
    assert_eq!(metrics.latest_loss(), Some(400000));
}

// Equal-state compressions select the same pseudo-random subset in the
// same order: the selection is a pure function of size and ratio.
#[test]
fn test_randomk_deterministic() {
    let config = CompressionConfig::new(CompressionMethod::RandomK, 300000, 8).unwrap();
    let mut c1 = GradientCompressor::new(config).unwrap();
    let mut c2 = GradientCompressor::new(config).unwrap();
    let g: Vec<i64> = (0..50).map(|i| (i * 13) % 40 - 20).collect();
    let a = c1.compress(&g);
    let b = c2.compress(&g);
    assert_eq!(a.indices, b.indices);
    assert_eq!(a.values, b.values);
    assert_eq!(a.compressed_size, b.compressed_size);
    for (t, &idx) in a.indices.iter().enumerate() {
        assert_eq!(a.values[t], g[idx]);
    }
}

// A submission smaller than the aggregation size scatters into the
// prefix and leaves the tail zero.
#[test]
fn test_aggregate_smaller_submission() {
    let mut aggregator = GradientAggregator::new(AggregationStrategy::AsyncFedAvg, 1);
    aggregator.model_size = Some(4);
    let small = CompressedGradient {
        indices: vec![1],
        values: vec![700],
        shape: vec![2],
        original_size: 2,
        compressed_size: 8,
        compression_ratio_ppm: 500000,
        quantization_bits: None,
    };
    aggregator.receive_gradients("n", small, 1);
    let result = aggregator.aggregate().unwrap();
    assert_eq!(result, vec![0, 700, 0, 0]);
}

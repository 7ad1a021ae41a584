use objectpool::{
    DynamicObjectPool, ObjectPool, PoolConfiguration, PoolError, QueryableObjectPool,
};
use std::collections::HashMap;
use std::sync::atomic::{AtomicUsize, Ordering};
use std::sync::Arc;
use std::time::Duration;

#[test]
fn test_object_pool_basic() {
    let mut pool = ObjectPool::new(vec![1, 2, 3], PoolConfiguration::default());

    {
        let obj = pool.get_object().unwrap();
        assert!(vec![1, 2, 3].contains(&*obj));
        pool.return_object(obj);
    }

    assert_eq!(pool.available_count(), 3);
}

#[test]
fn test_queryable_pool() {
    let mut pool = QueryableObjectPool::new(vec![1, 2, 3], PoolConfiguration::default());

    {
        let obj = pool.get_object(|x| *x == 2).unwrap();
        assert_eq!(*obj, 2);
        pool.return_object(obj);
    }
}

#[test]
fn test_dynamic_pool() {
    let mut pool = DynamicObjectPool::new(|| 42, PoolConfiguration::default());

    {
        let obj = pool.get_object().unwrap();
        assert_eq!(*obj, 42);
        pool.return_object(obj);
    }
}

#[test]
fn test_pool_empty_error() {
    let mut pool = ObjectPool::new(vec![1], PoolConfiguration::default());

    let _obj1 = pool.get_object().unwrap();
    let result = pool.get_object();

    assert!(result.is_err());
    if let Err(e) = result {
        assert!(matches!(e, PoolError::PoolEmpty));
    }
}

#[test]
fn test_try_methods() {
    let mut pool = ObjectPool::new(vec![42], PoolConfiguration::default());

    let obj1 = pool.try_get_object();
    assert!(obj1.is_some());
    if let Some(ref obj) = obj1 {
        assert_eq!(**obj, 42);
    }

    let obj2 = pool.try_get_object();
    assert!(obj2.is_none());

    pool.return_object(obj1.unwrap());

    let obj3 = pool.try_get_object();
    assert!(obj3.is_some());
}

#[test]
fn test_max_active_objects() {
    let config = PoolConfiguration::new().with_max_active_objects(2);

    let mut pool = ObjectPool::new(vec![1, 2, 3, 4, 5], config);

    let _obj1 = pool.get_object().unwrap();
    let _obj2 = pool.get_object().unwrap();

    let result = pool.get_object();
    assert!(result.is_err());
    if let Err(e) = result {
        assert!(matches!(e, PoolError::MaxActiveObjectsReached));
    }
}

#[test]
fn test_validation_on_return() {
    let config = PoolConfiguration::new().with_validation(|x: &i32| *x > 0);

    let mut pool = ObjectPool::new(vec![1, 2, 3], config);

    {
        let obj = pool.get_object().unwrap();
        assert_eq!(*obj, 1);
        pool.return_object(obj);
    }

    assert_eq!(pool.available_count(), 3);
}

#[test]
fn test_metrics_tracking() {
    let mut pool = ObjectPool::new(vec![1, 2, 3], PoolConfiguration::default());

    {
        let obj1 = pool.get_object().unwrap();
        let obj2 = pool.get_object().unwrap();

        let metrics = pool.get_metrics();
        assert_eq!(metrics.total_retrieved, 2);
        assert_eq!(metrics.active_objects, 2);
        assert_eq!(metrics.available_objects, 1);

        pool.return_object(obj2);
        pool.return_object(obj1);
    }

    let metrics = pool.get_metrics();
    assert_eq!(metrics.total_returned, 2);
    assert_eq!(metrics.active_objects, 0);
    assert_eq!(metrics.available_objects, 3);
}

#[test]
fn test_health_status() {
    let config = PoolConfiguration::new().with_max_pool_size(5);

    let mut pool = ObjectPool::new(vec![1, 2, 3, 4, 5], config);

    {
        let _obj1 = pool.get_object().unwrap();
        let _obj2 = pool.get_object().unwrap();

        let health = pool.get_health_status();
        assert!(health.is_healthy);
        assert_eq!(health.active_objects, 2);
        assert_eq!(health.available_objects, 3);
        assert_eq!(health.total_capacity, 5);
    }
}

#[test]
fn test_prometheus_export() {
    let mut pool = ObjectPool::new(vec![1, 2, 3], PoolConfiguration::default());

    {
        let _obj = pool.get_object().unwrap();

        let prometheus = pool.export_metrics_prometheus("test_pool", None);

        assert!(prometheus.contains("objectpool_objects_active"));
        assert!(prometheus.contains("objectpool_objects_available"));
        assert!(prometheus.contains("objectpool_utilization"));
        assert!(prometheus.contains("test_pool"));
    }
}

#[test]
fn test_prometheus_with_tags() {
    let pool = ObjectPool::new(vec![1, 2, 3], PoolConfiguration::default());

    let mut tags = HashMap::new();
    tags.insert("env".to_string(), "test".to_string());
    tags.insert("service".to_string(), "api".to_string());
    let tags: Vec<(String, String)> = tags.into_iter().collect();

    let prometheus = pool.export_metrics_prometheus("test_pool", Some(&tags));

    assert!(prometheus.contains("env=\"test\""));
    assert!(prometheus.contains("service=\"api\""));
}

#[test]
fn test_queryable_no_match() {
    let mut pool = QueryableObjectPool::new(vec![1, 2, 3], PoolConfiguration::default());

    let result = pool.get_object(|x| *x == 99);

    assert!(result.is_err());
    if let Err(e) = result {
        assert!(matches!(e, PoolError::NoMatchFound));
    }
}

#[test]
fn test_queryable_multiple_matches() {
    let mut pool = QueryableObjectPool::new(vec![1, 2, 3, 2, 4], PoolConfiguration::default());

    let obj = pool.get_object(|x| *x == 2).unwrap();
    assert_eq!(*obj, 2);

    // Should still find the other 2
    let obj2 = pool.get_object(|x| *x == 2).unwrap();
    assert_eq!(*obj2, 2);
}

#[test]
fn test_dynamic_pool_creation() {
    let call_count = Arc::new(AtomicUsize::new(0));
    let count_clone = call_count.clone();

    let mut pool = DynamicObjectPool::new(
        move || {
            count_clone.fetch_add(1, Ordering::Relaxed);
            42
        },
        PoolConfiguration::new().with_max_pool_size(5),
    );

    let _obj1 = pool.get_object().unwrap();
    let _obj2 = pool.get_object().unwrap();

    assert_eq!(call_count.load(Ordering::Relaxed), 2);
}

#[test]
fn test_dynamic_pool_warmup() {
    let mut pool = DynamicObjectPool::new(|| 42, PoolConfiguration::new().with_max_pool_size(10));

    pool.warmup(5).unwrap();

    let health = pool.get_health_status();
    assert_eq!(health.available_objects, 5);
}

#[test]
fn test_dynamic_pool_max_capacity() {
    let mut pool = DynamicObjectPool::new(|| 42, PoolConfiguration::new().with_max_pool_size(2));

    let _obj1 = pool.get_object().unwrap();
    let _obj2 = pool.get_object().unwrap();
    let result = pool.get_object();

    assert!(result.is_err());
    if let Err(e) = result {
        assert!(matches!(e, PoolError::PoolFull));
    }
}

#[test]
fn test_eviction_ttl() {
    let config = PoolConfiguration::new().with_ttl(Duration::from_millis(100));

    let mut pool = ObjectPool::new_at(vec![1, 2, 3], config, 0);

    // 150 ms after the pool was made the objects have expired.
    let obj = pool.try_get_object_at(150_000_000);
    assert!(obj.is_none() || pool.available_count() < 3);
}

#[test]
fn test_circuit_breaker_opens() {
    let config = PoolConfiguration::new().with_circuit_breaker(3, Duration::from_secs(60));

    let mut pool = ObjectPool::new(vec![1], config);

    let _obj = pool.get_object().unwrap();

    // Cause failures
    for _ in 0..3 {
        let _ = pool.try_get_object();
    }

    // Circuit breaker should be open now
    let result = pool.get_object();
    assert!(result.is_err());
}

#[test]
fn test_pool_reuse_after_drop() {
    let mut pool = ObjectPool::new(vec![1, 2, 3], PoolConfiguration::default());

    for _ in 0..100 {
        {
            let obj = pool.get_object().unwrap();
            assert!(vec![1, 2, 3].contains(&*obj));
            pool.return_object(obj);
        }
        assert_eq!(pool.available_count(), 3);
    }
}

#[test]
fn test_multiple_pools() {
    let mut pool1 = ObjectPool::new(vec![1, 2], PoolConfiguration::default());
    let mut pool2 = ObjectPool::new(vec![3, 4], PoolConfiguration::default());

    let obj1 = pool1.get_object().unwrap();
    let obj2 = pool2.get_object().unwrap();

    assert!(vec![1, 2].contains(&*obj1));
    assert!(vec![3, 4].contains(&*obj2));
}

#[test]
fn test_export_metrics_map() {
    let mut pool = ObjectPool::new(vec![1, 2, 3], PoolConfiguration::default());

    {
        let obj = pool.get_object().unwrap();
        pool.return_object(obj);
    }

    let metrics_map: HashMap<String, String> = pool.export_metrics().into_iter().collect();

    assert!(metrics_map.contains_key("total_retrieved"));
    assert!(metrics_map.contains_key("total_returned"));
    assert!(metrics_map.contains_key("active_objects"));
    assert_eq!(metrics_map.get("total_retrieved").unwrap(), "1");
    assert_eq!(metrics_map.get("total_returned").unwrap(), "1");
}

#[test]
fn test_health_warnings() {
    let config = PoolConfiguration::new().with_max_pool_size(2);

    let mut pool = ObjectPool::new(vec![1, 2], config);

    // Use both objects to get high utilization
    let _obj1 = pool.get_object().unwrap();
    let _obj2 = pool.get_object().unwrap();

    let health = pool.get_health_status();
    assert_eq!(health.utilization_hundredths(), 100); // 100% utilization
    assert_eq!(health.active_objects as f64 / health.total_capacity as f64, 1.0);
}

#[test]
fn test_configuration_builder() {
    let config = PoolConfiguration::<i32>::new()
        .with_max_pool_size(50)
        .with_max_active_objects(25)
        .with_timeout(Duration::from_secs(10))
        .with_ttl(Duration::from_secs(300))
        .with_idle_timeout(Duration::from_secs(60))
        .with_warmup(10)
        .with_circuit_breaker(5, Duration::from_secs(30));

    assert_eq!(config.max_pool_size, 50);
    assert_eq!(config.max_active_objects, Some(25));
    assert_eq!(config.warmup_size, Some(10));
    assert!(config.enable_circuit_breaker);
}
